//! The diff engine: which change events lie between two valid captures.

use crate::ascending::ascending;
use crate::ascending::insert_ascending;
use crate::ascending::lemma_ascending_lists;
use crate::ascending::lemma_ascending_unique;
use crate::ascending::strictly_ascending;
use crate::events::OrmGS;
use crate::events::OrmGSView;
use crate::events::OrmPlayer;
use crate::events::OrmPlayerView;
use crate::model::SnapshotView;
use crate::validate::ValidSnapshot;
use vstd::prelude::*;
use vstd::std_specs::iter::IteratorSpec;

verus! {

/// The change events between two captures, each list in ascending order of
/// the id of the town or player it reports.
#[derive(Clone, Debug, PartialEq, Eq)]
pub struct ChangeSet {
    /// Towns that lost their owner.
    pub gs_appeared: Vec<OrmGS>,
    /// Ghost towns that found an owner.
    pub gs_conquered: Vec<OrmGS>,
    /// Players that are gone.
    pub players_disappeared: Vec<OrmPlayer>,
}

pub struct ChangeSetView {
    pub gs_appeared: Seq<OrmGSView>,
    pub gs_conquered: Seq<OrmGSView>,
    pub players_disappeared: Seq<OrmPlayerView>,
}

/// A list of town events as a list of their views.
pub open spec fn territory_views(events: Seq<OrmGS>) -> Seq<OrmGSView> {
    events.map_values(|e: OrmGS| e@)
}

/// A list of player events as a list of their views.
pub open spec fn occupant_views(events: Seq<OrmPlayer>) -> Seq<OrmPlayerView> {
    events.map_values(|e: OrmPlayer| e@)
}

impl View for ChangeSet {
    type V = ChangeSetView;

    open spec fn view(&self) -> ChangeSetView {
        ChangeSetView {
            gs_appeared: territory_views(self.gs_appeared@),
            gs_conquered: territory_views(self.gs_conquered@),
            players_disappeared: occupant_views(self.players_disappeared@),
        }
    }
}

impl ChangeSetView {
    /// The change set without any event.
    pub open spec fn empty() -> ChangeSetView {
        ChangeSetView {
            gs_appeared: Seq::empty(),
            gs_conquered: Seq::empty(),
            players_disappeared: Seq::empty(),
        }
    }

    pub open spec fn is_empty(self) -> bool {
        self.gs_appeared.len() == 0 && self.gs_conquered.len() == 0
            && self.players_disappeared.len() == 0
    }
}

/// The towns that are ghost towns in `current`, were not in `previous`, and
/// were there in `previous`: they lost their owner in between.
pub open spec fn appeared_ids(previous: SnapshotView, current: SnapshotView) -> Set<u32> {
    Set::new(
        |id: u32|
            current.ghost_town_ids().contains(id) && !previous.ghost_town_ids().contains(id)
                && previous.towns.contains_key(id),
    )
}

/// The towns that were ghost towns in `previous`, are not in `current`, and
/// are there in `current`: they found an owner in between.
pub open spec fn conquered_ids(previous: SnapshotView, current: SnapshotView) -> Set<u32> {
    Set::new(
        |id: u32|
            previous.ghost_town_ids().contains(id) && !current.ghost_town_ids().contains(id)
                && current.towns.contains_key(id),
    )
}

/// The players that `previous` holds and `current` does not.
pub open spec fn departed_ids(previous: SnapshotView, current: SnapshotView) -> Set<u32> {
    Set::new(|id: u32| previous.players.contains_key(id) && !current.players.contains_key(id))
}

/// The change set between `previous` and `current`.
///
/// A town that lost its owner is reported as `previous` knew it, with the
/// names of its last owner. A town that found an owner is reported as
/// `current` knows it. A player that is gone is reported as `previous` knew
/// it. Every event is dated with the time of `current`.
pub open spec fn diff_spec(previous: SnapshotView, current: SnapshotView) -> ChangeSetView {
    ChangeSetView {
        gs_appeared: ascending(appeared_ids(previous, current)).map_values(
            |id: u32| previous.territory_event(id, current.loaded),
        ),
        gs_conquered: ascending(conquered_ids(previous, current)).map_values(
            |id: u32| current.territory_event(id, current.loaded),
        ),
        players_disappeared: ascending(departed_ids(previous, current)).map_values(
            |id: u32| previous.occupant_event(id, current.loaded),
        ),
    }
}

/// In a valid capture the ghost towns are the towns filed without owner.
pub proof fn lemma_ghost_towns_by_key(s: SnapshotView, id: u32)
    requires
        s.valid(),
    ensures
        s.ghost_town_ids().contains(id) <==> s.towns.contains_key(id) && s.towns[id].player_id
            is None,
{
    if s.ghost_town_ids().contains(id) {
        let key = choose|key: u32|
            #![trigger s.towns[key]]
            s.towns.contains_key(key) && s.towns[key].id == id && s.towns[key].player_id is None;
        assert(key == id);
    }
    if s.towns.contains_key(id) && s.towns[id].player_id is None {
        assert(s.towns[id].id == id);
    }
}

/// A town found an owner from `previous` to `current` exactly if it lost one
/// from `current` to `previous`.
pub proof fn lemma_conquered_is_appeared_backwards(previous: SnapshotView, current: SnapshotView)
    ensures
        conquered_ids(previous, current) == appeared_ids(current, previous),
{
    assert(conquered_ids(previous, current) =~= appeared_ids(current, previous));
}

impl ValidSnapshot {
    /// Reports the town filed under `town_id` as this capture knows it.
    pub fn territory_event(&self, town_id: u32, date: i64) -> (event: Option<OrmGS>)
        ensures
            event is Some <==> self@.towns.contains_key(town_id),
            event matches Some(e) ==> e@ == self@.territory_event(town_id, date),
    {
        broadcast use vstd::std_specs::hash::group_hash_axioms;

        let table = self.table();
        match table.towns.get(&town_id) {
            Some(town) => {
                assert(self@.towns.contains_key(town_id));
                assert(self@.towns[town_id] == town@);
                assert(self@.town_resolves(town_id));
                match table.offsets.get(&town.offset_slotnumber) {
                    Some(offset) => Some(
                        OrmGS::from_town(date, town, offset, &table.players, &table.alliances),
                    ),
                    None => None,
                }
            },
            None => None,
        }
    }

    /// Reports the player filed under `player_id` as this capture knows it.
    pub fn occupant_event(&self, player_id: u32, date: i64) -> (event: Option<OrmPlayer>)
        ensures
            event is Some <==> self@.players.contains_key(player_id),
            event matches Some(e) ==> e@ == self@.occupant_event(player_id, date),
    {
        broadcast use vstd::std_specs::hash::group_hash_axioms;

        let table = self.table();
        match table.players.get(&player_id) {
            Some(player) => {
                assert(self@.players[player_id] == player@);
                Some(OrmPlayer::from_player(date, player, &table.alliances))
            },
            None => None,
        }
    }
}

impl ChangeSet {
    /// The change set without any event.
    pub fn empty() -> (changes: ChangeSet)
        ensures
            changes@ == ChangeSetView::empty(),
    {
        let changes = ChangeSet {
            gs_appeared: Vec::new(),
            gs_conquered: Vec::new(),
            players_disappeared: Vec::new(),
        };
        assert(changes@.gs_appeared =~= Seq::<OrmGSView>::empty());
        assert(changes@.gs_conquered =~= Seq::<OrmGSView>::empty());
        assert(changes@.players_disappeared =~= Seq::<OrmPlayerView>::empty());
        changes
    }

    /// Whether the change set holds no event.
    pub fn is_empty(&self) -> (empty: bool)
        ensures
            empty == self@.is_empty(),
    {
        self.gs_appeared.len() == 0 && self.gs_conquered.len() == 0
            && self.players_disappeared.len() == 0
    }
}

/// Lists, in ascending order, the towns that are ghost towns in `after` and
/// had an owner in `before`.
fn newly_ownerless(before: &ValidSnapshot, after: &ValidSnapshot) -> (ids: Vec<u32>)
    ensures
        ids@ == ascending(appeared_ids(before@, after@)),
{
    let earlier = before.table();
    let later = after.table();
    let ghost wanted = appeared_ids(before@, after@);
    let ghost walk = later.towns.iter().remaining();
    let ghost mut seen: int = 0;
    let mut ids: Vec<u32> = Vec::new();
    for entry in it: later.towns.iter()
        invariant
            it.seq() == walk,
            seen == it.index(),
            walk == later.towns.iter().remaining(),
            earlier@ == before@,
            later@ == after@,
            before@.valid(),
            after@.valid(),
            wanted == appeared_ids(before@, after@),
            strictly_ascending(ids@),
            forall|id: u32| #[trigger]
                ids@.contains(id) <==> wanted.contains(id) && exists|i: int|
                    0 <= i < seen && *(#[trigger] walk[i]).0 == id,
    {
        let (key, town) = entry;
        let ghost ids_before = ids@;
        proof {
            broadcast use vstd::std_specs::hash::group_hash_axioms;

            assert(later.towns@.contains_key(*walk[seen].0));
            assert(after@.towns[*key] == town@);
            lemma_ghost_towns_by_key(before@, *key);
            lemma_ghost_towns_by_key(after@, *key);
        }
        let mut lost_owner = false;
        if town.player_id.is_none() {
            if let Some(known) = earlier.towns.get(key) {
                proof {
                    broadcast use vstd::std_specs::hash::group_hash_axioms;

                    assert(before@.towns[*key] == known@);
                }
                lost_owner = known.player_id.is_some();
            }
        }
        proof {
            broadcast use vstd::std_specs::hash::group_hash_axioms;

            assert(lost_owner <==> wanted.contains(*key));
        }
        if lost_owner {
            insert_ascending(&mut ids, *key);
        }
        proof {
            assert forall|id: u32| #[trigger]
                ids@.contains(id) <==> wanted.contains(id) && exists|i: int|
                    0 <= i < seen + 1 && *(#[trigger] walk[i]).0 == id by {
                if ids_before.contains(id) {
                    let i = choose|i: int| 0 <= i < seen && *(#[trigger] walk[i]).0 == id;
                    assert(0 <= i < seen + 1 && *walk[i].0 == id);
                }
                if id == *key {
                    assert(*walk[seen].0 == id);
                }
                if wanted.contains(id) && exists|i: int|
                    0 <= i < seen + 1 && *(#[trigger] walk[i]).0 == id {
                    let i = choose|i: int| 0 <= i < seen + 1 && *(#[trigger] walk[i]).0 == id;
                    if i < seen {
                        assert(ids_before.contains(id));
                    }
                }
            }
            seen = seen + 1;
        }
    }
    proof {
        broadcast use vstd::std_specs::hash::group_hash_axioms;

        assert forall|id: u32| ids@.contains(id) <==> wanted.contains(id) by {
            if wanted.contains(id) {
                lemma_ghost_towns_by_key(after@, id);
                assert(later.towns@.contains_key(id));
                assert(walk.contains((&id, &later.towns@[id])));
                let i = choose|i: int| 0 <= i < walk.len() && walk[i] == (&id, &later.towns@[id]);
                assert(*walk[i].0 == id);
            }
        }
        lemma_ascending_unique(ids@, wanted);
    }
    ids
}

/// Lists, in ascending order, the players that `before` holds and `after`
/// does not.
fn missing_players(before: &ValidSnapshot, after: &ValidSnapshot) -> (ids: Vec<u32>)
    ensures
        ids@ == ascending(departed_ids(before@, after@)),
{
    let earlier = before.table();
    let later = after.table();
    let ghost wanted = departed_ids(before@, after@);
    let ghost walk = earlier.players.iter().remaining();
    let ghost mut seen: int = 0;
    let mut ids: Vec<u32> = Vec::new();
    for entry in it: earlier.players.iter()
        invariant
            it.seq() == walk,
            seen == it.index(),
            walk == earlier.players.iter().remaining(),
            earlier@ == before@,
            later@ == after@,
            wanted == departed_ids(before@, after@),
            strictly_ascending(ids@),
            forall|id: u32| #[trigger]
                ids@.contains(id) <==> wanted.contains(id) && exists|i: int|
                    0 <= i < seen && *(#[trigger] walk[i]).0 == id,
    {
        let (key, player) = entry;
        let ghost ids_before = ids@;
        proof {
            broadcast use vstd::std_specs::hash::group_hash_axioms;

            assert(earlier.players@.contains_key(*walk[seen].0));
        }
        let gone = !later.players.contains_key(key);
        proof {
            broadcast use vstd::std_specs::hash::group_hash_axioms;

            assert(gone <==> wanted.contains(*key));
        }
        if gone {
            insert_ascending(&mut ids, *key);
        }
        proof {
            assert forall|id: u32| #[trigger]
                ids@.contains(id) <==> wanted.contains(id) && exists|i: int|
                    0 <= i < seen + 1 && *(#[trigger] walk[i]).0 == id by {
                if ids_before.contains(id) {
                    let i = choose|i: int| 0 <= i < seen && *(#[trigger] walk[i]).0 == id;
                    assert(0 <= i < seen + 1 && *walk[i].0 == id);
                }
                if id == *key {
                    assert(*walk[seen].0 == id);
                }
                if wanted.contains(id) && exists|i: int|
                    0 <= i < seen + 1 && *(#[trigger] walk[i]).0 == id {
                    let i = choose|i: int| 0 <= i < seen + 1 && *(#[trigger] walk[i]).0 == id;
                    if i < seen {
                        assert(ids_before.contains(id));
                    }
                }
            }
            seen = seen + 1;
        }
    }
    proof {
        broadcast use vstd::std_specs::hash::group_hash_axioms;

        assert forall|id: u32| ids@.contains(id) <==> wanted.contains(id) by {
            if wanted.contains(id) {
                assert(earlier.players@.contains_key(id));
                assert(walk.contains((&id, &earlier.players@[id])));
                let i = choose|i: int|
                    0 <= i < walk.len() && walk[i] == (&id, &earlier.players@[id]);
                assert(*walk[i].0 == id);
            }
        }
        lemma_ascending_unique(ids@, wanted);
    }
    ids
}

/// Reports each town of `ids` as `snapshot` knows it.
fn territory_events(snapshot: &ValidSnapshot, ids: &Vec<u32>, date: i64) -> (events: Vec<OrmGS>)
    requires
        forall|i: int| 0 <= i < ids@.len() ==> snapshot@.towns.contains_key(#[trigger] ids@[i]),
    ensures
        territory_views(events@) == ids@.map_values(
            |id: u32| snapshot@.territory_event(id, date),
        ),
{
    let mut events: Vec<OrmGS> = Vec::new();
    for i in 0..ids.len()
        invariant
            forall|i: int| 0 <= i < ids@.len() ==> snapshot@.towns.contains_key(#[trigger] ids@[i]),
            events@.len() == i,
            forall|j: int|
                0 <= j < i ==> (#[trigger] events@[j])@ == snapshot@.territory_event(ids@[j], date),
    {
        if let Some(event) = snapshot.territory_event(ids[i], date) {
            events.push(event);
        }
    }
    assert(territory_views(events@) =~= ids@.map_values(
        |id: u32| snapshot@.territory_event(id, date),
    ));
    events
}

/// Reports each player of `ids` as `snapshot` knows it.
fn occupant_events(snapshot: &ValidSnapshot, ids: &Vec<u32>, date: i64) -> (events: Vec<
    OrmPlayer,
>)
    requires
        forall|i: int| 0 <= i < ids@.len() ==> snapshot@.players.contains_key(#[trigger] ids@[i]),
    ensures
        occupant_views(events@) == ids@.map_values(|id: u32| snapshot@.occupant_event(id, date)),
{
    let mut events: Vec<OrmPlayer> = Vec::new();
    for i in 0..ids.len()
        invariant
            forall|i: int|
                0 <= i < ids@.len() ==> snapshot@.players.contains_key(#[trigger] ids@[i]),
            events@.len() == i,
            forall|j: int|
                0 <= j < i ==> (#[trigger] events@[j])@ == snapshot@.occupant_event(ids@[j], date),
    {
        if let Some(event) = snapshot.occupant_event(ids[i], date) {
            events.push(event);
        }
    }
    assert(occupant_views(events@) =~= ids@.map_values(
        |id: u32| snapshot@.occupant_event(id, date),
    ));
    events
}

/// Computes the change set between `previous` and `current`.
///
/// Two captures that are the same in everything are not walked record by
/// record: nothing lies between them.
pub fn diff(previous: &ValidSnapshot, current: &ValidSnapshot) -> (changes: ChangeSet)
    ensures
        changes@ == diff_spec(previous@, current@),
{
    if previous.table().same_as(current.table()) {
        proof {
            lemma_diff_of_same_is_empty(previous@);
        }
        return ChangeSet::empty();
    }
    let date = current.loaded();
    let appeared = newly_ownerless(previous, current);
    let conquered = newly_ownerless(current, previous);
    let departed = missing_players(previous, current);
    proof {
        lemma_conquered_is_appeared_backwards(previous@, current@);
        lemma_ascending_lists(appeared_ids(previous@, current@));
        lemma_ascending_lists(conquered_ids(previous@, current@));
        lemma_ascending_lists(departed_ids(previous@, current@));
        assert forall|i: int| 0 <= i < appeared@.len() implies previous@.towns.contains_key(
            #[trigger] appeared@[i],
        ) by {
            assert(appeared@.contains(appeared@[i]));
        }
        assert forall|i: int| 0 <= i < conquered@.len() implies current@.towns.contains_key(
            #[trigger] conquered@[i],
        ) by {
            assert(conquered@.contains(conquered@[i]));
        }
        assert forall|i: int| 0 <= i < departed@.len() implies previous@.players.contains_key(
            #[trigger] departed@[i],
        ) by {
            assert(departed@.contains(departed@[i]));
        }
    }
    ChangeSet {
        gs_appeared: territory_events(previous, &appeared, date),
        gs_conquered: territory_events(current, &conquered, date),
        players_disappeared: occupant_events(previous, &departed, date),
    }
}

impl ChangeSetView {
    /// By what the events of a change set are ordered when they are stored:
    /// the date, then the kind (towns that lost their owner, towns that found
    /// one, players that are gone), then the id.
    pub open spec fn storage_keys(self) -> Seq<(i64, int, u32)> {
        self.gs_appeared.map_values(|e: OrmGSView| (e.date, 0int, e.id))
            + self.gs_conquered.map_values(|e: OrmGSView| (e.date, 1int, e.id))
            + self.players_disappeared.map_values(|e: OrmPlayerView| (e.date, 2int, e.id))
    }
}

/// `a` comes before `b` by date, then kind, then id.
pub open spec fn key_before(a: (i64, int, u32), b: (i64, int, u32)) -> bool {
    a.0 < b.0 || (a.0 == b.0 && (a.1 < b.1 || (a.1 == b.1 && a.2 < b.2)))
}

/// Nothing lies between a capture and itself.
pub proof fn lemma_diff_of_same_is_empty(s: SnapshotView)
    ensures
        diff_spec(s, s) == ChangeSetView::empty(),
{
    assert(appeared_ids(s, s) =~= Set::<u32>::empty());
    assert(conquered_ids(s, s) =~= Set::<u32>::empty());
    assert(departed_ids(s, s) =~= Set::<u32>::empty());
    lemma_ascending_unique(Seq::<u32>::empty(), Set::<u32>::empty());
    let changes = diff_spec(s, s);
    assert(changes.gs_appeared =~= Seq::<OrmGSView>::empty());
    assert(changes.gs_conquered =~= Seq::<OrmGSView>::empty());
    assert(changes.players_disappeared =~= Seq::<OrmPlayerView>::empty());
}

/// No town both lost its owner and found one between the same two captures.
pub proof fn lemma_appeared_and_conquered_disjoint(previous: SnapshotView, current: SnapshotView)
    ensures
        appeared_ids(previous, current).disjoint(conquered_ids(previous, current)),
{
}

/// Each event of a diff reports the town or player whose id it carries, and
/// that id is in the set the event's list is drawn from.
pub proof fn lemma_diff_event_ids(previous: SnapshotView, current: SnapshotView)
    requires
        previous.valid(),
        current.valid(),
    ensures
        ({
            let changes = diff_spec(previous, current);
            &&& changes.gs_appeared.map_values(|e: OrmGSView| e.id) == ascending(
                appeared_ids(previous, current),
            )
            &&& changes.gs_conquered.map_values(|e: OrmGSView| e.id) == ascending(
                conquered_ids(previous, current),
            )
            &&& changes.players_disappeared.map_values(|e: OrmPlayerView| e.id) == ascending(
                departed_ids(previous, current),
            )
        }),
{
    let changes = diff_spec(previous, current);
    let appeared = ascending(appeared_ids(previous, current));
    let conquered = ascending(conquered_ids(previous, current));
    let departed = ascending(departed_ids(previous, current));
    lemma_ascending_lists(appeared_ids(previous, current));
    lemma_ascending_lists(conquered_ids(previous, current));
    lemma_ascending_lists(departed_ids(previous, current));
    assert forall|i: int| 0 <= i < appeared.len() implies (#[trigger] changes.gs_appeared[i]).id
        == appeared[i] by {
        assert(appeared.contains(appeared[i]));
        assert(previous.towns.contains_key(appeared[i]));
    }
    assert forall|i: int| 0 <= i < conquered.len() implies (#[trigger] changes.gs_conquered[i]).id
        == conquered[i] by {
        assert(conquered.contains(conquered[i]));
        assert(current.towns.contains_key(conquered[i]));
    }
    assert forall|i: int| 0 <= i < departed.len() implies (
    #[trigger] changes.players_disappeared[i]).id == departed[i] by {
        assert(departed.contains(departed[i]));
        assert(previous.players.contains_key(departed[i]));
    }
    assert(changes.gs_appeared.map_values(|e: OrmGSView| e.id) =~= appeared);
    assert(changes.gs_conquered.map_values(|e: OrmGSView| e.id) =~= conquered);
    assert(changes.players_disappeared.map_values(|e: OrmPlayerView| e.id) =~= departed);
}

/// No event for a town that lost its owner and no event for a town that
/// found one carry the same id.
pub proof fn lemma_diff_events_disjoint(previous: SnapshotView, current: SnapshotView)
    requires
        previous.valid(),
        current.valid(),
    ensures
        ({
            let changes = diff_spec(previous, current);
            forall|i: int, j: int|
                0 <= i < changes.gs_appeared.len() && 0 <= j < changes.gs_conquered.len() ==> (
                #[trigger] changes.gs_appeared[i]).id != (#[trigger] changes.gs_conquered[j]).id
        }),
{
    let changes = diff_spec(previous, current);
    let appeared = ascending(appeared_ids(previous, current));
    let conquered = ascending(conquered_ids(previous, current));
    lemma_diff_event_ids(previous, current);
    lemma_ascending_lists(appeared_ids(previous, current));
    lemma_ascending_lists(conquered_ids(previous, current));
    assert forall|i: int, j: int|
        0 <= i < changes.gs_appeared.len() && 0 <= j < changes.gs_conquered.len() implies (
    #[trigger] changes.gs_appeared[i]).id != (#[trigger] changes.gs_conquered[j]).id by {
        assert(changes.gs_appeared.map_values(|e: OrmGSView| e.id)[i] == appeared[i]);
        assert(changes.gs_conquered.map_values(|e: OrmGSView| e.id)[j] == conquered[j]);
        assert(appeared.contains(appeared[i]));
        assert(conquered.contains(conquered[j]));
    }
}

/// Every town that lost its owner, and every town that found one, is
/// reported with the name of an owner.
pub proof fn lemma_diff_events_name_owner(previous: SnapshotView, current: SnapshotView)
    requires
        previous.valid(),
        current.valid(),
    ensures
        ({
            let changes = diff_spec(previous, current);
            &&& forall|i: int|
                0 <= i < changes.gs_appeared.len() ==> (
                #[trigger] changes.gs_appeared[i]).player_name is Some
            &&& forall|j: int|
                0 <= j < changes.gs_conquered.len() ==> (
                #[trigger] changes.gs_conquered[j]).player_name is Some
        }),
{
    let changes = diff_spec(previous, current);
    let appeared = ascending(appeared_ids(previous, current));
    let conquered = ascending(conquered_ids(previous, current));
    lemma_ascending_lists(appeared_ids(previous, current));
    lemma_ascending_lists(conquered_ids(previous, current));
    assert forall|i: int| 0 <= i < changes.gs_appeared.len() implies (
    #[trigger] changes.gs_appeared[i]).player_name is Some by {
        let id = appeared[i];
        assert(appeared.contains(id));
        lemma_ghost_towns_by_key(previous, id);
        assert(previous.towns.contains_key(id));
        assert(previous.town_resolves(id));
    }
    assert forall|j: int| 0 <= j < changes.gs_conquered.len() implies (
    #[trigger] changes.gs_conquered[j]).player_name is Some by {
        let id = conquered[j];
        assert(conquered.contains(id));
        lemma_ghost_towns_by_key(current, id);
        assert(current.towns.contains_key(id));
        assert(current.town_resolves(id));
    }
}

/// The events of a diff, taken list after list, are in storage order: by
/// date, then kind, then id, and no two share all three.
pub proof fn lemma_diff_in_storage_order(previous: SnapshotView, current: SnapshotView)
    requires
        previous.valid(),
        current.valid(),
    ensures
        ({
            let keys = diff_spec(previous, current).storage_keys();
            forall|i: int, j: int|
                0 <= i < j < keys.len() ==> key_before(#[trigger] keys[i], #[trigger] keys[j])
        }),
{
    let changes = diff_spec(previous, current);
    let keys = changes.storage_keys();
    let appeared = ascending(appeared_ids(previous, current));
    let conquered = ascending(conquered_ids(previous, current));
    let departed = ascending(departed_ids(previous, current));
    lemma_diff_event_ids(previous, current);
    lemma_ascending_lists(appeared_ids(previous, current));
    lemma_ascending_lists(conquered_ids(previous, current));
    lemma_ascending_lists(departed_ids(previous, current));
    let first = changes.gs_appeared.len() as int;
    let second = first + changes.gs_conquered.len();
    assert forall|i: int| 0 <= i < keys.len() implies #[trigger] keys[i] == (if i < first {
        (current.loaded, 0int, appeared[i])
    } else if i < second {
        (current.loaded, 1int, conquered[i - first])
    } else {
        (current.loaded, 2int, departed[i - second])
    }) by {
        if i < first {
            assert(changes.gs_appeared.map_values(|e: OrmGSView| e.id)[i] == appeared[i]);
        } else if i < second {
            assert(changes.gs_conquered.map_values(|e: OrmGSView| e.id)[i - first]
                == conquered[i - first]);
        } else {
            assert(changes.players_disappeared.map_values(|e: OrmPlayerView| e.id)[i - second]
                == departed[i - second]);
        }
    }
    assert forall|i: int, j: int| 0 <= i < j < keys.len() implies key_before(
        #[trigger] keys[i],
        #[trigger] keys[j],
    ) by {}
}

} // verus!
