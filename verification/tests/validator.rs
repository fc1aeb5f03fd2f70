use grepolis_diff::model::island_key;
use grepolis_diff::model::Alliance;
use grepolis_diff::model::DataTable;
use grepolis_diff::model::Island;
use grepolis_diff::model::Offset;
use grepolis_diff::model::Player;
use grepolis_diff::model::Town;
use grepolis_diff::validate::validate;
use grepolis_diff::validate::Table;
use grepolis_diff::validate::ValidationError;

fn sound_world() -> DataTable {
    let mut table = DataTable::new(1_700_000_000);
    table.offsets.insert(0, Offset { typ: 1, x: 10, y: 20, slot_number: 0 });
    table.islands.insert(
        island_key(500, 480),
        Island {
            id: 100,
            x: 500,
            y: 480,
            typ: 1,
            towns: 2,
            ressource_plus: String::from("wood"),
            ressource_minus: String::from("stone"),
        },
    );
    table.alliances.insert(
        5,
        Alliance { id: 5, name: String::from("Olymp"), points: 1000, towns: 20, members: 7, rank: 1 },
    );
    table.players.insert(
        3,
        Player { id: 3, name: String::from("Ann"), alliance_id: Some(5), points: 400, rank: 1, towns: 1 },
    );
    table.players.insert(
        11,
        Player { id: 11, name: String::from("Bob"), alliance_id: None, points: 50, rank: 9, towns: 0 },
    );
    table.towns.insert(
        7,
        Town {
            id: 7,
            name: String::from("Athen"),
            points: 1500,
            player_id: Some(3),
            island_x: 500,
            island_y: 480,
            offset_slotnumber: 0,
        },
    );
    table.towns.insert(
        9,
        Town {
            id: 9,
            name: String::from("Ruins"),
            points: 175,
            player_id: None,
            island_x: 500,
            island_y: 480,
            offset_slotnumber: 0,
        },
    );
    table
}

#[test]
fn empty_capture_is_valid() {
    let table = DataTable::new(1_700_000_000);
    assert!(table.all_references_valid());
    assert_eq!(table.first_misfiled_record(), None);
    assert!(validate(table).is_ok());
}

#[test]
fn sound_capture_is_admitted_unchanged() {
    let table = sound_world();
    assert!(table.all_references_valid());
    assert_eq!(table.first_dangling_reference(), None);
    let admitted = validate(table).unwrap();
    assert_eq!(admitted.loaded(), 1_700_000_000);
    assert_eq!(admitted.table(), &sound_world());
    assert_eq!(admitted.into_table(), sound_world());
}

#[test]
fn player_with_unknown_alliance_is_rejected() {
    let mut table = sound_world();
    table.players.get_mut(&3).unwrap().alliance_id = Some(77);
    assert!(!table.all_references_valid());
    assert_eq!(
        validate(table).unwrap_err(),
        ValidationError::UnknownAlliance { player_id: 3, alliance_id: 77 }
    );
}

#[test]
fn town_with_unknown_owner_is_rejected() {
    let mut table = sound_world();
    table.towns.get_mut(&7).unwrap().player_id = Some(4);
    assert!(!table.all_references_valid());
    assert_eq!(validate(table).unwrap_err(), ValidationError::UnknownOwner { town_id: 7, player_id: 4 });
}

#[test]
fn town_on_unknown_island_is_rejected() {
    let mut table = sound_world();
    table.towns.get_mut(&9).unwrap().island_y = 481;
    assert!(!table.all_references_valid());
    assert_eq!(
        validate(table).unwrap_err(),
        ValidationError::UnknownIsland { town_id: 9, x: 500, y: 481 }
    );
}

#[test]
fn town_with_swapped_coordinates_is_rejected() {
    let mut table = sound_world();
    let town = table.towns.get_mut(&9).unwrap();
    town.island_x = 480;
    town.island_y = 500;
    assert_eq!(
        validate(table).unwrap_err(),
        ValidationError::UnknownIsland { town_id: 9, x: 480, y: 500 }
    );
}

#[test]
fn town_on_unknown_slot_is_rejected() {
    let mut table = sound_world();
    table.towns.get_mut(&7).unwrap().offset_slotnumber = 19;
    assert!(!table.all_references_valid());
    assert_eq!(
        validate(table).unwrap_err(),
        ValidationError::UnknownOffset { town_id: 7, slot_number: 19 }
    );
}

#[test]
fn misfiled_records_are_rejected() {
    let mut table = sound_world();
    let town = table.towns.remove(&9).unwrap();
    table.towns.insert(8, town);
    assert!(table.all_references_valid());
    assert_eq!(
        table.first_misfiled_record(),
        Some(ValidationError::Misfiled { table: Table::Towns, key: 8 })
    );
    assert_eq!(validate(table).unwrap_err(), ValidationError::Misfiled { table: Table::Towns, key: 8 });

    let mut table = sound_world();
    let offset = table.offsets.remove(&0).unwrap();
    table.offsets.insert(1, offset);
    table.towns.clear();
    assert_eq!(validate(table).unwrap_err(), ValidationError::Misfiled { table: Table::Offsets, key: 1 });

    let mut table = sound_world();
    table.islands.get_mut(&island_key(500, 480)).unwrap().x = 499;
    table.towns.clear();
    assert_eq!(
        validate(table).unwrap_err(),
        ValidationError::Misfiled { table: Table::Islands, key: island_key(500, 480) }
    );

    let mut table = sound_world();
    table.alliances.get_mut(&5).unwrap().id = 6;
    assert_eq!(validate(table).unwrap_err(), ValidationError::Misfiled { table: Table::Alliances, key: 5 });

    let mut table = sound_world();
    table.players.get_mut(&11).unwrap().id = 12;
    assert_eq!(validate(table).unwrap_err(), ValidationError::Misfiled { table: Table::Players, key: 11 });
}

#[test]
fn ghost_towns_are_the_towns_without_owner() {
    let table = sound_world();
    let ghosts = table.get_ghost_town_ids();
    assert_eq!(ghosts.len(), 1);
    assert!(ghosts.contains(&9));
    assert!(DataTable::new(0).get_ghost_town_ids().is_empty());
}

#[test]
fn captures_with_the_same_records_are_the_same() {
    assert!(sound_world().same_as(&sound_world()));
    assert!(DataTable::new(5).same_as(&DataTable::new(5)));
}

#[test]
fn captures_that_differ_in_anything_are_not_the_same() {
    let reference = sound_world();
    assert!(!reference.same_as(&DataTable::new(1_700_000_000)));

    let mut other = sound_world();
    other.loaded += 1;
    assert!(!reference.same_as(&other));

    let mut other = sound_world();
    other.towns.get_mut(&7).unwrap().name.push('s');
    assert!(!reference.same_as(&other));
    assert!(!other.same_as(&reference));

    let mut other = sound_world();
    other.towns.get_mut(&9).unwrap().player_id = Some(3);
    assert!(!reference.same_as(&other));

    let mut other = sound_world();
    other.players.remove(&11);
    assert!(!reference.same_as(&other));
    assert!(!other.same_as(&reference));

    let mut other = sound_world();
    let bob = other.players.remove(&11).unwrap();
    other.players.insert(12, bob);
    assert!(!reference.same_as(&other));

    let mut other = sound_world();
    other.offsets.get_mut(&0).unwrap().x = 11;
    assert!(!reference.same_as(&other));

    let mut other = sound_world();
    other.islands.get_mut(&island_key(500, 480)).unwrap().ressource_minus = String::from("iron");
    assert!(!reference.same_as(&other));

    let mut other = sound_world();
    other.alliances.get_mut(&5).unwrap().members = 8;
    assert!(!reference.same_as(&other));
}

#[test]
fn records_compare_field_by_field() {
    let table = sound_world();
    let athen = table.towns.get(&7).unwrap();
    let ruins = table.towns.get(&9).unwrap();
    assert!(athen.same_as(athen));
    assert!(!athen.same_as(ruins));
    let ann = table.players.get(&3).unwrap();
    let mut twin = ann.clone();
    assert!(ann.same_as(&twin));
    twin.rank = 2;
    assert!(!ann.same_as(&twin));
    let olymp = table.alliances.get(&5).unwrap();
    let mut twin = olymp.clone();
    assert!(olymp.same_as(&twin));
    twin.points = 0;
    assert!(!olymp.same_as(&twin));
    let island = table.islands.get(&island_key(500, 480)).unwrap();
    let mut twin = island.clone();
    assert!(island.same_as(&twin));
    twin.typ = 9;
    assert!(!island.same_as(&twin));
}
