use grepolis_diff::model::island_key;
use grepolis_diff::model::DataTable;
use grepolis_diff::parse::parse_alliances;
use grepolis_diff::parse::parse_islands;
use grepolis_diff::parse::parse_offsets;
use grepolis_diff::parse::parse_players;
use grepolis_diff::parse::parse_towns;
use grepolis_diff::parse::FieldProblem;
use grepolis_diff::parse::ParseError;
use grepolis_diff::validate::ValidationError;
use grepolis_diff::world::WorldError;

const OFFSETS: &str = "1,10,20,0\n1,30,40,1\n2,50,60,2\n";
const ALLIANCES: &str = "5,The+Olympians,1000,20,7,1\n6,Sparta%21,500,10,3,2\n";
const ISLANDS: &str = "100,500,480,1,2,wood,stone\n101,501,481,2,0,iron,wood\n";
const PLAYERS: &str = "3,Ann,5,400,1,2\n11,Bob+the+Brave,,50,9,1\n";
const TOWNS: &str = "7,3,Athen,500,480,0,1500\n9,,Ruins+of+Troy,500,480,1,175\n";

#[test]
fn offsets_are_keyed_by_slot_number() {
    let table = parse_offsets(OFFSETS).unwrap();
    assert_eq!(table.len(), 3);
    let offset = table.get(&1).unwrap();
    assert_eq!((offset.typ, offset.x, offset.y, offset.slot_number), (1, 30, 40, 1));
}

#[test]
fn a_later_offset_replaces_an_earlier_one_of_the_same_slot() {
    let table = parse_offsets("1,10,20,0\n2,11,21,0\n").unwrap();
    assert_eq!(table.len(), 1);
    let offset = table.get(&0).unwrap();
    assert_eq!((offset.typ, offset.x, offset.y), (2, 11, 21));
}

#[test]
fn alliances_are_read_with_decoded_names() {
    let table = parse_alliances(ALLIANCES).unwrap();
    assert_eq!(table.len(), 2);
    let first = table.get(&5).unwrap();
    assert_eq!(first.id, 5);
    assert_eq!(first.name, "The Olympians");
    assert_eq!((first.points, first.towns, first.members, first.rank), (1000, 20, 7, 1));
    assert_eq!(table.get(&6).unwrap().name, "Sparta!");
}

#[test]
fn islands_are_keyed_by_their_coordinates() {
    let table = parse_islands(ISLANDS).unwrap();
    assert_eq!(table.len(), 2);
    assert_eq!(island_key(500, 480), 500 * 65536 + 480);
    let island = table.get(&island_key(500, 480)).unwrap();
    assert_eq!((island.id, island.x, island.y, island.typ, island.towns), (100, 500, 480, 1, 2));
    assert_eq!(island.ressource_plus, "wood");
    assert_eq!(island.ressource_minus, "stone");
    assert!(table.get(&island_key(480, 500)).is_none());
}

#[test]
fn players_may_have_no_alliance() {
    let table = parse_players(PLAYERS).unwrap();
    let ann = table.get(&3).unwrap();
    assert_eq!(ann.name, "Ann");
    assert_eq!(ann.alliance_id, Some(5));
    assert_eq!((ann.points, ann.rank, ann.towns), (400, 1, 2));
    let bob = table.get(&11).unwrap();
    assert_eq!(bob.name, "Bob the Brave");
    assert_eq!(bob.alliance_id, None);
}

#[test]
fn towns_may_have_no_owner() {
    let table = parse_towns(TOWNS).unwrap();
    let athen = table.get(&7).unwrap();
    assert_eq!(athen.name, "Athen");
    assert_eq!(athen.player_id, Some(3));
    assert_eq!((athen.island_x, athen.island_y, athen.offset_slotnumber, athen.points), (500, 480, 0, 1500));
    let ruins = table.get(&9).unwrap();
    assert_eq!(ruins.name, "Ruins of Troy");
    assert_eq!(ruins.player_id, None);
}

#[test]
fn fields_beyond_the_last_are_ignored() {
    let table = parse_players("3,Ann,5,400,1,2,extra,fields\n").unwrap();
    assert_eq!(table.get(&3).unwrap().towns, 2);
}

#[test]
fn an_empty_text_is_an_empty_table() {
    assert_eq!(parse_towns("").unwrap().len(), 0);
    assert_eq!(parse_alliances("").unwrap().len(), 0);
}

#[test]
fn a_missing_field_fails_the_table() {
    assert_eq!(
        parse_alliances("5,Olymp,1000,20,7,1\n6,Sparta,500\n").unwrap_err(),
        ParseError { line: 1, column: 3, problem: FieldProblem::Missing }
    );
    assert_eq!(
        parse_islands("100,500,480,1,2,wood\n").unwrap_err(),
        ParseError { line: 0, column: 6, problem: FieldProblem::Missing }
    );
}

#[test]
fn a_field_that_is_no_number_fails_the_table() {
    assert_eq!(
        parse_players("3,Ann,5,400,1,2\n11,Bob,x,50,9,1\n").unwrap_err(),
        ParseError { line: 1, column: 2, problem: FieldProblem::NotANumber }
    );
    assert_eq!(
        parse_towns("7,3,Athen,500,480,256,1500\n").unwrap_err(),
        ParseError { line: 0, column: 5, problem: FieldProblem::NotANumber }
    );
    assert_eq!(
        parse_towns("7,3,Athen,500,480,0,65536\n").unwrap_err(),
        ParseError { line: 0, column: 6, problem: FieldProblem::NotANumber }
    );
    assert_eq!(
        parse_offsets("1,70000,20,0\n").unwrap_err(),
        ParseError { line: 0, column: 1, problem: FieldProblem::NotANumber }
    );
}

#[test]
fn an_empty_line_fails_the_table() {
    assert_eq!(
        parse_towns("7,3,Athen,500,480,0,1500\n\n9,,Ruins,500,480,1,175\n").unwrap_err(),
        ParseError { line: 1, column: 0, problem: FieldProblem::NotANumber }
    );
}

#[test]
fn the_first_unreadable_field_is_reported() {
    assert_eq!(
        parse_players("x,Ann,y,400\n").unwrap_err(),
        ParseError { line: 0, column: 0, problem: FieldProblem::NotANumber }
    );
    assert_eq!(
        parse_players("3,Ann,y\n").unwrap_err(),
        ParseError { line: 0, column: 2, problem: FieldProblem::NotANumber }
    );
}

#[test]
fn a_world_is_built_from_its_five_texts() {
    let table = DataTable::create_for_world_at(1_700_000_000, OFFSETS, ALLIANCES, ISLANDS, PLAYERS, TOWNS).unwrap();
    assert_eq!(table.loaded, 1_700_000_000);
    assert_eq!(table.offsets.len(), 3);
    assert_eq!(table.alliances.len(), 2);
    assert_eq!(table.islands.len(), 2);
    assert_eq!(table.players.len(), 2);
    assert_eq!(table.towns.len(), 2);
    assert!(table.all_references_valid());
}

#[test]
fn a_world_reads_the_clock() {
    let table = DataTable::create_for_world(OFFSETS, ALLIANCES, ISLANDS, PLAYERS, TOWNS).unwrap();
    assert!(table.loaded > 1_600_000_000);
    assert_eq!(table.towns.len(), 2);
}

#[test]
fn a_world_names_the_table_that_cannot_be_read() {
    let bad = "x\n";
    let miss = ParseError { line: 0, column: 0, problem: FieldProblem::NotANumber };
    assert_eq!(
        DataTable::create_for_world_at(0, bad, bad, bad, bad, bad).unwrap_err(),
        WorldError::Offsets(miss)
    );
    assert_eq!(
        DataTable::create_for_world_at(0, OFFSETS, bad, bad, bad, bad).unwrap_err(),
        WorldError::Alliances(miss)
    );
    assert_eq!(
        DataTable::create_for_world_at(0, OFFSETS, ALLIANCES, bad, bad, bad).unwrap_err(),
        WorldError::Islands(miss)
    );
    assert_eq!(
        DataTable::create_for_world_at(0, OFFSETS, ALLIANCES, ISLANDS, bad, bad).unwrap_err(),
        WorldError::Players(miss)
    );
    assert_eq!(
        DataTable::create_for_world_at(0, OFFSETS, ALLIANCES, ISLANDS, PLAYERS, bad).unwrap_err(),
        WorldError::Towns(miss)
    );
}

#[test]
fn a_world_with_a_dangling_reference_is_refused() {
    let towns = "7,4,Athen,500,480,0,1500\n";
    assert_eq!(
        DataTable::create_for_world_at(0, OFFSETS, ALLIANCES, ISLANDS, PLAYERS, towns).unwrap_err(),
        WorldError::InvalidReferences(ValidationError::UnknownOwner { town_id: 7, player_id: 4 })
    );
    let towns = "7,3,Athen,500,480,9,1500\n";
    assert_eq!(
        DataTable::create_for_world_at(0, OFFSETS, ALLIANCES, ISLANDS, PLAYERS, towns).unwrap_err(),
        WorldError::InvalidReferences(ValidationError::UnknownOffset { town_id: 7, slot_number: 9 })
    );
}
