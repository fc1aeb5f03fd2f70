use grepolis_diff::diff::diff;
use grepolis_diff::diff::ChangeSet;
use grepolis_diff::events::OrmGS;
use grepolis_diff::events::OrmPlayer;
use grepolis_diff::messages::MessageFromModelToDB;
use grepolis_diff::model::island_key;
use grepolis_diff::model::Alliance;
use grepolis_diff::model::DataTable;
use grepolis_diff::model::Island;
use grepolis_diff::model::Offset;
use grepolis_diff::model::Player;
use grepolis_diff::model::Town;
use grepolis_diff::validate::validate;
use grepolis_diff::validate::ValidSnapshot;

fn player(id: u32, name: &str, alliance_id: Option<u32>) -> Player {
    Player { id, name: String::from(name), alliance_id, points: 100 * id, rank: id as u16, towns: 1 }
}

fn town(id: u32, name: &str, player_id: Option<u32>, slot: u8) -> Town {
    Town {
        id,
        name: String::from(name),
        points: 1000 + id as u16,
        player_id,
        island_x: 500,
        island_y: 480,
        offset_slotnumber: slot,
    }
}

fn world(loaded: i64, players: Vec<Player>, towns: Vec<Town>) -> ValidSnapshot {
    let mut table = DataTable::new(loaded);
    table.offsets.insert(0, Offset { typ: 1, x: 10, y: 20, slot_number: 0 });
    table.offsets.insert(1, Offset { typ: 1, x: 30, y: 40, slot_number: 1 });
    table.islands.insert(
        island_key(500, 480),
        Island {
            id: 100,
            x: 500,
            y: 480,
            typ: 1,
            towns: 2,
            ressource_plus: String::from("wood"),
            ressource_minus: String::from("stone"),
        },
    );
    table.alliances.insert(
        5,
        Alliance { id: 5, name: String::from("Olymp"), points: 1000, towns: 20, members: 7, rank: 1 },
    );
    table.alliances.insert(
        6,
        Alliance { id: 6, name: String::from("Sparta"), points: 500, towns: 10, members: 3, rank: 2 },
    );
    for p in players {
        table.players.insert(p.id, p);
    }
    for t in towns {
        table.towns.insert(t.id, t);
    }
    validate(table).unwrap()
}

#[test]
fn a_town_that_loses_its_owner_is_reported_with_its_last_owner() {
    let baseline = world(1000, vec![player(3, "Ann", Some(5))], vec![town(7, "Athen", Some(3), 1)]);
    let candidate = world(5000, vec![player(3, "Anna", Some(6))], vec![town(7, "Athen renamed", None, 0)]);
    let changes = diff(&baseline, &candidate);
    assert_eq!(
        changes.gs_appeared,
        vec![OrmGS {
            date: 5000,
            id: 7,
            name: String::from("Athen"),
            points: 1007,
            island_x: 500,
            island_y: 480,
            offset_x: 30,
            offset_y: 40,
            player_name: Some(String::from("Ann")),
            alliance_name: Some(String::from("Olymp")),
        }]
    );
    assert!(changes.gs_conquered.is_empty());
    assert!(changes.players_disappeared.is_empty());
}

#[test]
fn a_ghost_town_that_finds_an_owner_is_reported_with_its_new_owner() {
    let baseline = world(1000, vec![player(5, "Eve", None)], vec![town(9, "Ruins", None, 0)]);
    let candidate = world(5000, vec![player(5, "Eve", Some(6))], vec![town(9, "Eveville", Some(5), 0)]);
    let changes = diff(&baseline, &candidate);
    assert!(changes.gs_appeared.is_empty());
    assert_eq!(
        changes.gs_conquered,
        vec![OrmGS {
            date: 5000,
            id: 9,
            name: String::from("Eveville"),
            points: 1009,
            island_x: 500,
            island_y: 480,
            offset_x: 10,
            offset_y: 20,
            player_name: Some(String::from("Eve")),
            alliance_name: Some(String::from("Sparta")),
        }]
    );
    assert!(changes.players_disappeared.is_empty());
}

#[test]
fn a_player_that_is_gone_is_reported_with_its_last_alliance() {
    let baseline = world(1000, vec![player(11, "Bob", Some(5)), player(12, "Cid", None)], vec![]);
    let candidate = world(5000, vec![player(12, "Cid", None)], vec![]);
    let changes = diff(&baseline, &candidate);
    assert!(changes.gs_appeared.is_empty());
    assert!(changes.gs_conquered.is_empty());
    assert_eq!(
        changes.players_disappeared,
        vec![OrmPlayer {
            date: 5000,
            id: 11,
            name: String::from("Bob"),
            towns: 1,
            points: 1100,
            rank: 11,
            alliance: Some(String::from("Olymp")),
        }]
    );
}

#[test]
fn identical_captures_differ_in_nothing() {
    let players = vec![player(3, "Ann", Some(5)), player(11, "Bob", None)];
    let towns = vec![town(7, "Athen", Some(3), 0), town(9, "Ruins", None, 1)];
    let baseline = world(1000, players.clone(), towns.clone());
    let candidate = world(1000, players, towns);
    let changes = diff(&baseline, &candidate);
    assert_eq!(changes, ChangeSet::empty());
    assert!(changes.is_empty());
    assert!(changes.into_messages().is_empty());
}

#[test]
fn a_capture_differs_from_itself_in_nothing() {
    let capture = world(
        1000,
        vec![player(3, "Ann", Some(5))],
        vec![town(7, "Athen", Some(3), 0), town(9, "Ruins", None, 1)],
    );
    assert!(diff(&capture, &capture).is_empty());
}

#[test]
fn a_player_without_alliance_leaves_without_alliance_name() {
    let baseline = world(1000, vec![player(12, "Cid", None)], vec![]);
    let candidate = world(2000, vec![], vec![]);
    let changes = diff(&baseline, &candidate);
    assert_eq!(changes.players_disappeared.len(), 1);
    assert_eq!(changes.players_disappeared[0].alliance, None);
    assert_eq!(changes.players_disappeared[0].date, 2000);
}

#[test]
fn a_town_that_vanishes_or_is_new_is_not_reported() {
    let baseline = world(
        1000,
        vec![player(3, "Ann", None)],
        vec![town(7, "Athen", Some(3), 0), town(9, "Ruins", None, 0)],
    );
    let candidate = world(
        5000,
        vec![player(3, "Ann", None)],
        vec![town(20, "New ruins", None, 0), town(21, "New town", Some(3), 1)],
    );
    assert!(diff(&baseline, &candidate).is_empty());
}

#[test]
fn a_town_that_changes_hands_is_not_reported() {
    let players = vec![player(3, "Ann", None), player(4, "Dan", None)];
    let baseline = world(1000, players.clone(), vec![town(7, "Athen", Some(3), 0)]);
    let candidate = world(5000, players, vec![town(7, "Athen", Some(4), 0)]);
    assert!(diff(&baseline, &candidate).is_empty());
}

#[test]
fn events_come_in_ascending_order_of_id() {
    let ids: Vec<u32> = vec![40, 7, 1000, 3, 999, 12, 4_000_000_000, 8, 0, 77];
    let owners = vec![player(1, "Ann", Some(5))];
    let baseline = world(
        1000,
        owners.clone(),
        ids.iter().map(|id| town(*id, "owned", Some(1), 0)).collect(),
    );
    let candidate = world(5000, owners, ids.iter().map(|id| town(*id, "ghost", None, 0)).collect());
    let lost = diff(&baseline, &candidate);
    let mut sorted = ids.clone();
    sorted.sort();
    assert_eq!(lost.gs_appeared.iter().map(|e| e.id).collect::<Vec<u32>>(), sorted);
    assert!(lost.gs_appeared.iter().all(|e| e.name == "owned" && e.date == 5000));
    let found = diff(&candidate, &baseline);
    assert_eq!(found.gs_conquered.iter().map(|e| e.id).collect::<Vec<u32>>(), sorted);
    assert!(found.gs_conquered.iter().all(|e| e.name == "owned" && e.date == 1000));
    assert!(found.gs_appeared.is_empty());
}

#[test]
fn appeared_and_conquered_towns_are_disjoint() {
    let owners = vec![player(1, "Ann", None), player(2, "Bob", None)];
    let baseline = world(
        1000,
        owners.clone(),
        vec![town(1, "a", Some(1), 0), town(2, "b", None, 0), town(3, "c", Some(2), 0), town(4, "d", None, 0)],
    );
    let candidate = world(
        5000,
        vec![player(1, "Ann", None)],
        vec![town(1, "a", None, 0), town(2, "b", Some(1), 0), town(3, "c", None, 0), town(4, "d", None, 0)],
    );
    let changes = diff(&baseline, &candidate);
    let appeared: Vec<u32> = changes.gs_appeared.iter().map(|e| e.id).collect();
    let conquered: Vec<u32> = changes.gs_conquered.iter().map(|e| e.id).collect();
    assert_eq!(appeared, vec![1, 3]);
    assert_eq!(conquered, vec![2]);
    assert!(appeared.iter().all(|id| !conquered.contains(id)));
    assert_eq!(changes.players_disappeared.iter().map(|e| e.id).collect::<Vec<u32>>(), vec![2]);
    assert_eq!(changes.gs_appeared[1].player_name, Some(String::from("Bob")));
}

#[test]
fn the_order_of_insertion_does_not_matter() {
    let towns = vec![town(5, "e", Some(1), 0), town(2, "b", Some(1), 1), town(9, "i", Some(1), 0)];
    let ghosts = vec![town(5, "e", None, 0), town(2, "b", None, 1), town(9, "i", None, 0)];
    let mut backwards = towns.clone();
    backwards.reverse();
    let mut ghosts_backwards = ghosts.clone();
    ghosts_backwards.reverse();
    let owners = vec![player(1, "Ann", None)];
    let one = diff(&world(1, owners.clone(), towns), &world(2, owners.clone(), ghosts));
    let other = diff(&world(1, owners.clone(), backwards), &world(2, owners, ghosts_backwards));
    assert_eq!(one, other);
    assert_eq!(one.gs_appeared.len(), 3);
}

#[test]
fn a_change_set_goes_to_the_store_in_batches_by_kind() {
    let owners = vec![player(1, "Ann", None), player(2, "Bob", None)];
    let baseline = world(1000, owners, vec![town(1, "a", Some(1), 0), town(2, "b", None, 0)]);
    let candidate = world(
        5000,
        vec![player(1, "Ann", None)],
        vec![town(1, "a", None, 0), town(2, "b", Some(1), 0)],
    );
    let changes = diff(&baseline, &candidate);
    let expected = vec![
        MessageFromModelToDB::GSAppeared(changes.gs_appeared.clone()),
        MessageFromModelToDB::GSConquered(changes.gs_conquered.clone()),
        MessageFromModelToDB::PlayersDisappeared(changes.players_disappeared.clone()),
    ];
    assert_eq!(changes.into_messages(), expected);

    let only_player = diff(
        &world(1, vec![player(2, "Bob", None)], vec![]),
        &world(2, vec![], vec![]),
    );
    let messages = only_player.clone().into_messages();
    assert_eq!(messages, vec![MessageFromModelToDB::PlayersDisappeared(only_player.players_disappeared)]);
}

#[test]
fn events_can_be_made_from_single_records() {
    let capture = world(1000, vec![player(3, "Ann", Some(5))], vec![town(7, "Athen", Some(3), 1)]);
    let table = capture.table();
    let event = OrmGS::from_town(
        42,
        table.towns.get(&7).unwrap(),
        table.offsets.get(&1).unwrap(),
        &table.players,
        &table.alliances,
    );
    assert_eq!(Some(event), capture.territory_event(7, 42));
    assert_eq!(capture.territory_event(8, 42), None);
    let event = OrmPlayer::from_player(42, table.players.get(&3).unwrap(), &table.alliances);
    assert_eq!(Some(event), capture.occupant_event(3, 42));
    assert_eq!(capture.occupant_event(4, 42), None);
}
