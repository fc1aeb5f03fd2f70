//! Reading the tables of a capture from the text of the world data.
//!
//! Every table is one record per line and every record a list of
//! comma-separated fields in a fixed order. Names are percent-encoded. The
//! first field that cannot be read fails the whole table.

use crate::model::alliance_views;
use crate::model::island_key;
use crate::model::island_key_of;
use crate::model::island_views;
use crate::model::player_views;
use crate::model::town_views;
use crate::model::Alliance;
use crate::model::AllianceView;
use crate::model::Island;
use crate::model::IslandView;
use crate::model::Offset;
use crate::model::Player;
use crate::model::PlayerView;
use crate::model::Town;
use crate::model::TownView;
use crate::names::decode_name;
use crate::names::decoded_name;
use crate::text::lines;
use crate::text::number_of;
use crate::text::parse_number;
use crate::text::rows;
use crate::text::split;
use crate::text::string_of;
use crate::text::split_lines;
use crate::text::split_on;
use std::collections::HashMap;
use vstd::prelude::*;

verus! {

/// Why a field could not be read.
#[derive(Clone, Copy, Debug, PartialEq, Eq, Structural)]
pub enum FieldProblem {
    /// The record has too few fields.
    Missing,
    /// The field is not an unsigned decimal number of the width it needs.
    NotANumber,
}

/// The field of a record that could not be read.
#[derive(Clone, Copy, Debug, PartialEq, Eq, Structural)]
pub struct RecordError {
    /// The position of the field in its record, counted from zero.
    pub column: usize,
    pub problem: FieldProblem,
}

/// The field of a table that could not be read.
#[derive(Clone, Copy, Debug, PartialEq, Eq, Structural)]
pub struct ParseError {
    /// The position of the record in its table, counted from zero.
    pub line: usize,
    /// The position of the field in its record, counted from zero.
    pub column: usize,
    pub problem: FieldProblem,
}

/// The field at `column`, as it is written.
pub open spec fn text_at(fields: Seq<Seq<char>>, column: usize) -> Result<Seq<char>, RecordError> {
    if column < fields.len() {
        Ok(fields[column as int])
    } else {
        Err(RecordError { column, problem: FieldProblem::Missing })
    }
}

/// The name that the field at `column` encodes.
pub open spec fn name_at(fields: Seq<Seq<char>>, column: usize) -> Result<Seq<char>, RecordError> {
    match text_at(fields, column) {
        Ok(text) => Ok(decoded_name(text)),
        Err(e) => Err(e),
    }
}

/// The number at most `max` that the field at `column` writes.
pub open spec fn number_at(fields: Seq<Seq<char>>, column: usize, max: u32) -> Result<
    u32,
    RecordError,
> {
    match text_at(fields, column) {
        Ok(text) => match number_of(text, max) {
            Some(value) => Ok(value),
            None => Err(RecordError { column, problem: FieldProblem::NotANumber }),
        },
        Err(e) => Err(e),
    }
}

/// The number at most `max` that the field at `column` writes, or none if
/// the field is empty.
pub open spec fn optional_number_at(fields: Seq<Seq<char>>, column: usize, max: u32) -> Result<
    Option<u32>,
    RecordError,
> {
    match text_at(fields, column) {
        Ok(text) => if text.len() == 0 {
            Ok(None)
        } else {
            match number_of(text, max) {
                Some(value) => Ok(Some(value)),
                None => Err(RecordError { column, problem: FieldProblem::NotANumber }),
            }
        },
        Err(e) => Err(e),
    }
}

/// The table that `lines` write, one record per line: each record is read
/// with `record_of` and filed under `key_of`, a later record replacing an
/// earlier one with the same key. The first line that cannot be read fails
/// the table.
pub open spec fn table_of<K, R>(
    lines: Seq<Seq<char>>,
    record_of: spec_fn(Seq<Seq<char>>) -> Result<R, RecordError>,
    key_of: spec_fn(R) -> K,
) -> Result<Map<K, R>, ParseError>
    decreases lines.len(),
{
    if lines.len() == 0 {
        Ok(Map::empty())
    } else {
        match table_of(lines.drop_last(), record_of, key_of) {
            Ok(table) => match record_of(split_on(lines.last(), ',')) {
                Ok(record) => Ok(table.insert(key_of(record), record)),
                Err(e) => Err(
                    ParseError {
                        line: (lines.len() - 1) as usize,
                        column: e.column,
                        problem: e.problem,
                    },
                ),
            },
            Err(e) => Err(e),
        }
    }
}

/// A table that fails on its first lines fails in the same way as a whole.
pub proof fn lemma_table_fails_early<K, R>(
    lines: Seq<Seq<char>>,
    record_of: spec_fn(Seq<Seq<char>>) -> Result<R, RecordError>,
    key_of: spec_fn(R) -> K,
    read: int,
)
    requires
        0 <= read <= lines.len(),
        table_of(lines.take(read), record_of, key_of) is Err,
    ensures
        table_of(lines, record_of, key_of) == table_of(lines.take(read), record_of, key_of),
    decreases lines.len() - read,
{
    if read < lines.len() {
        assert(lines.drop_last().take(read) =~= lines.take(read));
        lemma_table_fails_early(lines.drop_last(), record_of, key_of, read);
    } else {
        assert(lines.take(read) =~= lines);
    }
}

/// If every record that can be read is filed under the key it had before
/// it was read, then a table holds every record under its own key.
pub proof fn lemma_table_filed_by_key<K, R>(
    lines: Seq<Seq<char>>,
    record_of: spec_fn(Seq<Seq<char>>) -> Result<R, RecordError>,
    key_of: spec_fn(R) -> K,
)
    ensures
        table_of(lines, record_of, key_of) matches Ok(table) ==> forall|key: K| #[trigger]
            table.contains_key(key) ==> key_of(table[key]) == key,
    decreases lines.len(),
{
    if lines.len() > 0 {
        lemma_table_filed_by_key(lines.drop_last(), record_of, key_of);
    }
}

/// The alliance that the fields of one record write: id, name, points,
/// towns, members and rank.
pub open spec fn alliance_of(fields: Seq<Seq<char>>) -> Result<AllianceView, RecordError> {
    let id = number_at(fields, 0, u32::MAX);
    let name = name_at(fields, 1);
    let points = number_at(fields, 2, u32::MAX);
    let towns = number_at(fields, 3, u32::MAX);
    let members = number_at(fields, 4, u16::MAX as u32);
    let rank = number_at(fields, 5, u16::MAX as u32);
    if id is Err {
        Err(id->Err_0)
    } else if name is Err {
        Err(name->Err_0)
    } else if points is Err {
        Err(points->Err_0)
    } else if towns is Err {
        Err(towns->Err_0)
    } else if members is Err {
        Err(members->Err_0)
    } else if rank is Err {
        Err(rank->Err_0)
    } else {
        Ok(
            AllianceView {
                id: id->Ok_0,
                name: name->Ok_0,
                points: points->Ok_0,
                towns: towns->Ok_0,
                members: members->Ok_0 as u16,
                rank: rank->Ok_0 as u16,
            },
        )
    }
}

/// The table of alliances that `text` writes.
pub open spec fn alliances_of(text: Seq<char>) -> Result<Map<u32, AllianceView>, ParseError> {
    table_of(
        split_lines(text),
        |fields: Seq<Seq<char>>| alliance_of(fields),
        |alliance: AllianceView| alliance.id,
    )
}

/// The offset that the fields of one record write: island type, x, y and
/// slot number.
pub open spec fn offset_of(fields: Seq<Seq<char>>) -> Result<Offset, RecordError> {
    let typ = number_at(fields, 0, u8::MAX as u32);
    let x = number_at(fields, 1, u16::MAX as u32);
    let y = number_at(fields, 2, u16::MAX as u32);
    let slot_number = number_at(fields, 3, u8::MAX as u32);
    if typ is Err {
        Err(typ->Err_0)
    } else if x is Err {
        Err(x->Err_0)
    } else if y is Err {
        Err(y->Err_0)
    } else if slot_number is Err {
        Err(slot_number->Err_0)
    } else {
        Ok(
            Offset {
                typ: typ->Ok_0 as u8,
                x: x->Ok_0 as u16,
                y: y->Ok_0 as u16,
                slot_number: slot_number->Ok_0 as u8,
            },
        )
    }
}

/// The table of offsets that `text` writes, keyed by slot number.
pub open spec fn offsets_of(text: Seq<char>) -> Result<Map<u8, Offset>, ParseError> {
    table_of(
        split_lines(text),
        |fields: Seq<Seq<char>>| offset_of(fields),
        |offset: Offset| offset.slot_number,
    )
}

/// The island that the fields of one record write: id, x, y, type, number
/// of towns, and the resources it has much and little of.
pub open spec fn island_of(fields: Seq<Seq<char>>) -> Result<IslandView, RecordError> {
    let id = number_at(fields, 0, u32::MAX);
    let x = number_at(fields, 1, u16::MAX as u32);
    let y = number_at(fields, 2, u16::MAX as u32);
    let typ = number_at(fields, 3, u8::MAX as u32);
    let towns = number_at(fields, 4, u8::MAX as u32);
    let ressource_plus = text_at(fields, 5);
    let ressource_minus = text_at(fields, 6);
    if id is Err {
        Err(id->Err_0)
    } else if x is Err {
        Err(x->Err_0)
    } else if y is Err {
        Err(y->Err_0)
    } else if typ is Err {
        Err(typ->Err_0)
    } else if towns is Err {
        Err(towns->Err_0)
    } else if ressource_plus is Err {
        Err(ressource_plus->Err_0)
    } else if ressource_minus is Err {
        Err(ressource_minus->Err_0)
    } else {
        Ok(
            IslandView {
                id: id->Ok_0,
                x: x->Ok_0 as u16,
                y: y->Ok_0 as u16,
                typ: typ->Ok_0 as u8,
                towns: towns->Ok_0 as u8,
                ressource_plus: ressource_plus->Ok_0,
                ressource_minus: ressource_minus->Ok_0,
            },
        )
    }
}

/// The table of islands that `text` writes, keyed by their coordinates.
pub open spec fn islands_of(text: Seq<char>) -> Result<Map<u32, IslandView>, ParseError> {
    table_of(
        split_lines(text),
        |fields: Seq<Seq<char>>| island_of(fields),
        |island: IslandView| island_key_of(island.x, island.y),
    )
}

/// The player that the fields of one record write: id, name, alliance if
/// any, points, rank and number of towns.
pub open spec fn player_of(fields: Seq<Seq<char>>) -> Result<PlayerView, RecordError> {
    let id = number_at(fields, 0, u32::MAX);
    let name = name_at(fields, 1);
    let alliance_id = optional_number_at(fields, 2, u32::MAX);
    let points = number_at(fields, 3, u32::MAX);
    let rank = number_at(fields, 4, u16::MAX as u32);
    let towns = number_at(fields, 5, u16::MAX as u32);
    if id is Err {
        Err(id->Err_0)
    } else if name is Err {
        Err(name->Err_0)
    } else if alliance_id is Err {
        Err(alliance_id->Err_0)
    } else if points is Err {
        Err(points->Err_0)
    } else if rank is Err {
        Err(rank->Err_0)
    } else if towns is Err {
        Err(towns->Err_0)
    } else {
        Ok(
            PlayerView {
                id: id->Ok_0,
                name: name->Ok_0,
                alliance_id: alliance_id->Ok_0,
                points: points->Ok_0,
                rank: rank->Ok_0 as u16,
                towns: towns->Ok_0 as u16,
            },
        )
    }
}

/// The table of players that `text` writes.
pub open spec fn players_of(text: Seq<char>) -> Result<Map<u32, PlayerView>, ParseError> {
    table_of(
        split_lines(text),
        |fields: Seq<Seq<char>>| player_of(fields),
        |player: PlayerView| player.id,
    )
}

/// The town that the fields of one record write: id, owner if any, name,
/// island x, island y, slot number and points.
pub open spec fn town_of(fields: Seq<Seq<char>>) -> Result<TownView, RecordError> {
    let id = number_at(fields, 0, u32::MAX);
    let player_id = optional_number_at(fields, 1, u32::MAX);
    let name = name_at(fields, 2);
    let x = number_at(fields, 3, u16::MAX as u32);
    let y = number_at(fields, 4, u16::MAX as u32);
    let slot_number = number_at(fields, 5, u8::MAX as u32);
    let points = number_at(fields, 6, u16::MAX as u32);
    if id is Err {
        Err(id->Err_0)
    } else if player_id is Err {
        Err(player_id->Err_0)
    } else if name is Err {
        Err(name->Err_0)
    } else if x is Err {
        Err(x->Err_0)
    } else if y is Err {
        Err(y->Err_0)
    } else if slot_number is Err {
        Err(slot_number->Err_0)
    } else if points is Err {
        Err(points->Err_0)
    } else {
        Ok(
            TownView {
                id: id->Ok_0,
                name: name->Ok_0,
                points: points->Ok_0 as u16,
                player_id: player_id->Ok_0,
                island_x: x->Ok_0 as u16,
                island_y: y->Ok_0 as u16,
                offset_slotnumber: slot_number->Ok_0 as u8,
            },
        )
    }
}

/// The table of towns that `text` writes.
pub open spec fn towns_of(text: Seq<char>) -> Result<Map<u32, TownView>, ParseError> {
    table_of(
        split_lines(text),
        |fields: Seq<Seq<char>>| town_of(fields),
        |town: TownView| town.id,
    )
}

/// Reads the field at `column` as it is written.
fn read_text(fields: &Vec<Vec<char>>, column: usize) -> (outcome: Result<String, RecordError>)
    ensures
        match outcome {
            Ok(text) => text_at(rows(fields@), column) == Ok::<Seq<char>, RecordError>(text@),
            Err(e) => text_at(rows(fields@), column) == Err::<Seq<char>, RecordError>(e),
        },
{
    if column < fields.len() {
        Ok(string_of(&fields[column]))
    } else {
        Err(RecordError { column, problem: FieldProblem::Missing })
    }
}

/// Reads the name that the field at `column` encodes.
fn read_name(fields: &Vec<Vec<char>>, column: usize) -> (outcome: Result<String, RecordError>)
    ensures
        match outcome {
            Ok(name) => name_at(rows(fields@), column) == Ok::<Seq<char>, RecordError>(name@),
            Err(e) => name_at(rows(fields@), column) == Err::<Seq<char>, RecordError>(e),
        },
{
    match read_text(fields, column) {
        Ok(text) => Ok(decode_name(text.as_str())),
        Err(e) => Err(e),
    }
}

/// Reads the field at `column` as a number that is at most `max`.
fn read_number(fields: &Vec<Vec<char>>, column: usize, max: u32) -> (outcome: Result<
    u32,
    RecordError,
>)
    ensures
        outcome == number_at(rows(fields@), column, max),
{
    if column < fields.len() {
        match parse_number(&fields[column], max) {
            Some(value) => Ok(value),
            None => Err(RecordError { column, problem: FieldProblem::NotANumber }),
        }
    } else {
        Err(RecordError { column, problem: FieldProblem::Missing })
    }
}

/// Reads the field at `column` as a number that is at most `max`, or as none
/// if it is empty.
fn read_optional_number(fields: &Vec<Vec<char>>, column: usize, max: u32) -> (outcome: Result<
    Option<u32>,
    RecordError,
>)
    ensures
        outcome == optional_number_at(rows(fields@), column, max),
{
    if column < fields.len() {
        if fields[column].len() == 0 {
            Ok(None)
        } else {
            match parse_number(&fields[column], max) {
                Some(value) => Ok(Some(value)),
                None => Err(RecordError { column, problem: FieldProblem::NotANumber }),
            }
        }
    } else {
        Err(RecordError { column, problem: FieldProblem::Missing })
    }
}

/// Reads one alliance from the fields of its record.
pub fn parse_alliance(fields: &Vec<Vec<char>>) -> (outcome: Result<Alliance, RecordError>)
    ensures
        match outcome {
            Ok(alliance) => alliance_of(rows(fields@)) == Ok::<AllianceView, RecordError>(
                alliance@,
            ),
            Err(e) => alliance_of(rows(fields@)) == Err::<AllianceView, RecordError>(e),
        },
{
    let id = read_number(fields, 0, u32::MAX)?;
    let name = read_name(fields, 1)?;
    let points = read_number(fields, 2, u32::MAX)?;
    let towns = read_number(fields, 3, u32::MAX)?;
    let members = read_number(fields, 4, u16::MAX as u32)?;
    let rank = read_number(fields, 5, u16::MAX as u32)?;
    Ok(Alliance { id, name, points, towns, members: members as u16, rank: rank as u16 })
}

/// Reads the table of alliances.
pub fn parse_alliances(data: &str) -> (outcome: Result<HashMap<u32, Alliance>, ParseError>)
    ensures
        match outcome {
            Ok(table) => alliances_of(data@) == Ok::<Map<u32, AllianceView>, ParseError>(
                alliance_views(table@),
            ),
            Err(e) => alliances_of(data@) == Err::<Map<u32, AllianceView>, ParseError>(e),
        },
{
    broadcast use vstd::std_specs::hash::group_hash_axioms;

    let records = lines(data);
    let ghost record_of = |fields: Seq<Seq<char>>| alliance_of(fields);
    let ghost key_of = |alliance: AllianceView| alliance.id;
    let mut table: HashMap<u32, Alliance> = HashMap::with_capacity(records.len());
    assert(alliance_views(table@) =~= Map::<u32, AllianceView>::empty());
    for i in 0..records.len()
        invariant
            rows(records@) == split_lines(data@),
            record_of == |fields: Seq<Seq<char>>| alliance_of(fields),
            key_of == |alliance: AllianceView| alliance.id,
            table_of(rows(records@).take(i as int), record_of, key_of) == Ok::<
                Map<u32, AllianceView>,
                ParseError,
            >(alliance_views(table@)),
    {
        let fields = split(&records[i], ',');
        let ghost upto = rows(records@).take(i + 1);
        proof {
            assert(upto.drop_last() =~= rows(records@).take(i as int));
            assert(upto.last() == records@[i as int]@);
        }
        match parse_alliance(&fields) {
            Ok(alliance) => {
                let ghost before = table@;
                let id = alliance.id;
                table.insert(id, alliance);
                assert(alliance_views(table@) =~= alliance_views(before).insert(id, alliance@));
            },
            Err(e) => {
                proof {
                    lemma_table_fails_early(rows(records@), record_of, key_of, i + 1);
                }
                return Err(ParseError { line: i, column: e.column, problem: e.problem });
            },
        }
    }
    assert(rows(records@).take(records.len() as int) =~= rows(records@));
    Ok(table)
}

/// Reads one offset from the fields of its record.
pub fn parse_offset(fields: &Vec<Vec<char>>) -> (outcome: Result<Offset, RecordError>)
    ensures
        outcome == offset_of(rows(fields@)),
{
    let typ = read_number(fields, 0, u8::MAX as u32)?;
    let x = read_number(fields, 1, u16::MAX as u32)?;
    let y = read_number(fields, 2, u16::MAX as u32)?;
    let slot_number = read_number(fields, 3, u8::MAX as u32)?;
    Ok(Offset { typ: typ as u8, x: x as u16, y: y as u16, slot_number: slot_number as u8 })
}

/// Reads one island from the fields of its record.
pub fn parse_island(fields: &Vec<Vec<char>>) -> (outcome: Result<Island, RecordError>)
    ensures
        match outcome {
            Ok(island) => island_of(rows(fields@)) == Ok::<IslandView, RecordError>(island@),
            Err(e) => island_of(rows(fields@)) == Err::<IslandView, RecordError>(e),
        },
{
    let id = read_number(fields, 0, u32::MAX)?;
    let x = read_number(fields, 1, u16::MAX as u32)?;
    let y = read_number(fields, 2, u16::MAX as u32)?;
    let typ = read_number(fields, 3, u8::MAX as u32)?;
    let towns = read_number(fields, 4, u8::MAX as u32)?;
    let ressource_plus = read_text(fields, 5)?;
    let ressource_minus = read_text(fields, 6)?;
    Ok(
        Island {
            id,
            x: x as u16,
            y: y as u16,
            typ: typ as u8,
            towns: towns as u8,
            ressource_plus,
            ressource_minus,
        },
    )
}

/// Reads one player from the fields of its record.
pub fn parse_player(fields: &Vec<Vec<char>>) -> (outcome: Result<Player, RecordError>)
    ensures
        match outcome {
            Ok(player) => player_of(rows(fields@)) == Ok::<PlayerView, RecordError>(player@),
            Err(e) => player_of(rows(fields@)) == Err::<PlayerView, RecordError>(e),
        },
{
    let id = read_number(fields, 0, u32::MAX)?;
    let name = read_name(fields, 1)?;
    let alliance_id = read_optional_number(fields, 2, u32::MAX)?;
    let points = read_number(fields, 3, u32::MAX)?;
    let rank = read_number(fields, 4, u16::MAX as u32)?;
    let towns = read_number(fields, 5, u16::MAX as u32)?;
    Ok(Player { id, name, alliance_id, points, rank: rank as u16, towns: towns as u16 })
}

/// Reads one town from the fields of its record.
pub fn parse_town(fields: &Vec<Vec<char>>) -> (outcome: Result<Town, RecordError>)
    ensures
        match outcome {
            Ok(town) => town_of(rows(fields@)) == Ok::<TownView, RecordError>(town@),
            Err(e) => town_of(rows(fields@)) == Err::<TownView, RecordError>(e),
        },
{
    let id = read_number(fields, 0, u32::MAX)?;
    let player_id = read_optional_number(fields, 1, u32::MAX)?;
    let name = read_name(fields, 2)?;
    let x = read_number(fields, 3, u16::MAX as u32)?;
    let y = read_number(fields, 4, u16::MAX as u32)?;
    let slot_number = read_number(fields, 5, u8::MAX as u32)?;
    let points = read_number(fields, 6, u16::MAX as u32)?;
    Ok(
        Town {
            id,
            name,
            points: points as u16,
            player_id,
            island_x: x as u16,
            island_y: y as u16,
            offset_slotnumber: slot_number as u8,
        },
    )
}

/// Reads the table of offsets.
pub fn parse_offsets(data: &str) -> (outcome: Result<HashMap<u8, Offset>, ParseError>)
    ensures
        match outcome {
            Ok(table) => offsets_of(data@) == Ok::<Map<u8, Offset>, ParseError>(
                table@,
            ),
            Err(e) => offsets_of(data@) == Err::<Map<u8, Offset>, ParseError>(e),
        },
{
    broadcast use vstd::std_specs::hash::group_hash_axioms;

    let records = lines(data);
    let ghost record_of = |fields: Seq<Seq<char>>| offset_of(fields);
    let ghost key_of = |offset: Offset| offset.slot_number;
    let mut table: HashMap<u8, Offset> = HashMap::with_capacity(records.len());
    assert(table@ =~= Map::<u8, Offset>::empty());
    for i in 0..records.len()
        invariant
            rows(records@) == split_lines(data@),
            record_of == |fields: Seq<Seq<char>>| offset_of(fields),
            key_of == |offset: Offset| offset.slot_number,
            table_of(rows(records@).take(i as int), record_of, key_of) == Ok::<
                Map<u8, Offset>,
                ParseError,
            >(table@),
    {
        let fields = split(&records[i], ',');
        let ghost upto = rows(records@).take(i + 1);
        proof {
            assert(upto.drop_last() =~= rows(records@).take(i as int));
            assert(upto.last() == records@[i as int]@);
        }
        match parse_offset(&fields) {
            Ok(offset) => {
                let ghost before = table@;
                let key = offset.slot_number;
                table.insert(key, offset);
                assert(table@ =~= before.insert(key, offset));
            },
            Err(e) => {
                proof {
                    lemma_table_fails_early(rows(records@), record_of, key_of, i + 1);
                }
                return Err(ParseError { line: i, column: e.column, problem: e.problem });
            },
        }
    }
    assert(rows(records@).take(records.len() as int) =~= rows(records@));
    Ok(table)
}

/// Reads the table of islands.
pub fn parse_islands(data: &str) -> (outcome: Result<HashMap<u32, Island>, ParseError>)
    ensures
        match outcome {
            Ok(table) => islands_of(data@) == Ok::<Map<u32, IslandView>, ParseError>(
                island_views(table@),
            ),
            Err(e) => islands_of(data@) == Err::<Map<u32, IslandView>, ParseError>(e),
        },
{
    broadcast use vstd::std_specs::hash::group_hash_axioms;

    let records = lines(data);
    let ghost record_of = |fields: Seq<Seq<char>>| island_of(fields);
    let ghost key_of = |island: IslandView| island_key_of(island.x, island.y);
    let mut table: HashMap<u32, Island> = HashMap::with_capacity(records.len());
    assert(island_views(table@) =~= Map::<u32, IslandView>::empty());
    for i in 0..records.len()
        invariant
            rows(records@) == split_lines(data@),
            record_of == |fields: Seq<Seq<char>>| island_of(fields),
            key_of == |island: IslandView| island_key_of(island.x, island.y),
            table_of(rows(records@).take(i as int), record_of, key_of) == Ok::<
                Map<u32, IslandView>,
                ParseError,
            >(island_views(table@)),
    {
        let fields = split(&records[i], ',');
        let ghost upto = rows(records@).take(i + 1);
        proof {
            assert(upto.drop_last() =~= rows(records@).take(i as int));
            assert(upto.last() == records@[i as int]@);
        }
        match parse_island(&fields) {
            Ok(island) => {
                let ghost before = table@;
                let key = island_key(island.x, island.y);
                table.insert(key, island);
                assert(island_views(table@) =~= island_views(before).insert(key, island@));
            },
            Err(e) => {
                proof {
                    lemma_table_fails_early(rows(records@), record_of, key_of, i + 1);
                }
                return Err(ParseError { line: i, column: e.column, problem: e.problem });
            },
        }
    }
    assert(rows(records@).take(records.len() as int) =~= rows(records@));
    Ok(table)
}

/// Reads the table of players.
pub fn parse_players(data: &str) -> (outcome: Result<HashMap<u32, Player>, ParseError>)
    ensures
        match outcome {
            Ok(table) => players_of(data@) == Ok::<Map<u32, PlayerView>, ParseError>(
                player_views(table@),
            ),
            Err(e) => players_of(data@) == Err::<Map<u32, PlayerView>, ParseError>(e),
        },
{
    broadcast use vstd::std_specs::hash::group_hash_axioms;

    let records = lines(data);
    let ghost record_of = |fields: Seq<Seq<char>>| player_of(fields);
    let ghost key_of = |player: PlayerView| player.id;
    let mut table: HashMap<u32, Player> = HashMap::with_capacity(records.len());
    assert(player_views(table@) =~= Map::<u32, PlayerView>::empty());
    for i in 0..records.len()
        invariant
            rows(records@) == split_lines(data@),
            record_of == |fields: Seq<Seq<char>>| player_of(fields),
            key_of == |player: PlayerView| player.id,
            table_of(rows(records@).take(i as int), record_of, key_of) == Ok::<
                Map<u32, PlayerView>,
                ParseError,
            >(player_views(table@)),
    {
        let fields = split(&records[i], ',');
        let ghost upto = rows(records@).take(i + 1);
        proof {
            assert(upto.drop_last() =~= rows(records@).take(i as int));
            assert(upto.last() == records@[i as int]@);
        }
        match parse_player(&fields) {
            Ok(player) => {
                let ghost before = table@;
                let key = player.id;
                table.insert(key, player);
                assert(player_views(table@) =~= player_views(before).insert(key, player@));
            },
            Err(e) => {
                proof {
                    lemma_table_fails_early(rows(records@), record_of, key_of, i + 1);
                }
                return Err(ParseError { line: i, column: e.column, problem: e.problem });
            },
        }
    }
    assert(rows(records@).take(records.len() as int) =~= rows(records@));
    Ok(table)
}

/// Reads the table of towns.
pub fn parse_towns(data: &str) -> (outcome: Result<HashMap<u32, Town>, ParseError>)
    ensures
        match outcome {
            Ok(table) => towns_of(data@) == Ok::<Map<u32, TownView>, ParseError>(
                town_views(table@),
            ),
            Err(e) => towns_of(data@) == Err::<Map<u32, TownView>, ParseError>(e),
        },
{
    broadcast use vstd::std_specs::hash::group_hash_axioms;

    let records = lines(data);
    let ghost record_of = |fields: Seq<Seq<char>>| town_of(fields);
    let ghost key_of = |town: TownView| town.id;
    let mut table: HashMap<u32, Town> = HashMap::with_capacity(records.len());
    assert(town_views(table@) =~= Map::<u32, TownView>::empty());
    for i in 0..records.len()
        invariant
            rows(records@) == split_lines(data@),
            record_of == |fields: Seq<Seq<char>>| town_of(fields),
            key_of == |town: TownView| town.id,
            table_of(rows(records@).take(i as int), record_of, key_of) == Ok::<
                Map<u32, TownView>,
                ParseError,
            >(town_views(table@)),
    {
        let fields = split(&records[i], ',');
        let ghost upto = rows(records@).take(i + 1);
        proof {
            assert(upto.drop_last() =~= rows(records@).take(i as int));
            assert(upto.last() == records@[i as int]@);
        }
        match parse_town(&fields) {
            Ok(town) => {
                let ghost before = table@;
                let key = town.id;
                table.insert(key, town);
                assert(town_views(table@) =~= town_views(before).insert(key, town@));
            },
            Err(e) => {
                proof {
                    lemma_table_fails_early(rows(records@), record_of, key_of, i + 1);
                }
                return Err(ParseError { line: i, column: e.column, problem: e.problem });
            },
        }
    }
    assert(rows(records@).take(records.len() as int) =~= rows(records@));
    Ok(table)
}

} // verus!
