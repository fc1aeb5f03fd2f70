//! What travels between the stages: change events on their way to the event
//! store, and the store's latest view on its way to the cache.

use crate::diff::occupant_views;
use crate::diff::territory_views;
use crate::diff::ChangeSet;
use crate::diff::ChangeSetView;
use crate::events::OrmGS;
use crate::events::OrmGSView;
use crate::events::OrmPlayer;
use crate::events::OrmPlayerView;
use crate::text::decimal_digits;
use crate::text::push_decimal;
use vstd::prelude::*;
use vstd::string::StringExecFns;

verus! {

/// How many events of each kind the cache holds at most.
pub const LATEST_PER_CATEGORY: usize = 200;

/// One batch of change events of one kind, to be stored as one transaction.
#[derive(Clone, Debug, PartialEq, Eq)]
pub enum MessageFromModelToDB {
    GSConquered(Vec<OrmGS>),
    GSAppeared(Vec<OrmGS>),
    PlayersDisappeared(Vec<OrmPlayer>),
}

/// The latest events of each kind, oldest first, as the cache serves them.
#[derive(Clone, Debug, PartialEq, Eq)]
pub struct CachedDBState {
    pub gs_conquered: Vec<OrmGS>,
    pub gs_appeared: Vec<OrmGS>,
    pub players_left: Vec<OrmPlayer>,
}

/// What the event store sends to the cache.
#[derive(Clone, Debug, PartialEq, Eq)]
pub enum MessageFromDBToWeb {
    NewData(CachedDBState),
}

pub enum MessageView {
    GSConquered(Seq<OrmGSView>),
    GSAppeared(Seq<OrmGSView>),
    PlayersDisappeared(Seq<OrmPlayerView>),
}

pub struct CachedDBStateView {
    pub gs_conquered: Seq<OrmGSView>,
    pub gs_appeared: Seq<OrmGSView>,
    pub players_left: Seq<OrmPlayerView>,
}

impl View for MessageFromModelToDB {
    type V = MessageView;

    open spec fn view(&self) -> MessageView {
        match self {
            MessageFromModelToDB::GSConquered(events) => MessageView::GSConquered(
                territory_views(events@),
            ),
            MessageFromModelToDB::GSAppeared(events) => MessageView::GSAppeared(
                territory_views(events@),
            ),
            MessageFromModelToDB::PlayersDisappeared(events) => MessageView::PlayersDisappeared(
                occupant_views(events@),
            ),
        }
    }
}

impl View for CachedDBState {
    type V = CachedDBStateView;

    open spec fn view(&self) -> CachedDBStateView {
        CachedDBStateView {
            gs_conquered: territory_views(self.gs_conquered@),
            gs_appeared: territory_views(self.gs_appeared@),
            players_left: occupant_views(self.players_left@),
        }
    }
}

/// A list of messages as a list of their views.
pub open spec fn message_views(messages: Seq<MessageFromModelToDB>) -> Seq<MessageView> {
    messages.map_values(|m: MessageFromModelToDB| m@)
}

/// The batches in which a change set goes to the event store: towns that
/// lost their owner, towns that found one, players that are gone, in this
/// order and without the kinds of which there is no event.
pub open spec fn messages_of(changes: ChangeSetView) -> Seq<MessageView> {
    let appeared = if changes.gs_appeared.len() > 0 {
        seq![MessageView::GSAppeared(changes.gs_appeared)]
    } else {
        seq![]
    };
    let conquered = if changes.gs_conquered.len() > 0 {
        seq![MessageView::GSConquered(changes.gs_conquered)]
    } else {
        seq![]
    };
    let departed = if changes.players_disappeared.len() > 0 {
        seq![MessageView::PlayersDisappeared(changes.players_disappeared)]
    } else {
        seq![]
    };
    appeared + conquered + departed
}

/// The last `cap` elements of `events`, or all of them if there are fewer.
pub open spec fn latest_of<T>(events: Seq<T>, cap: nat) -> Seq<T> {
    if events.len() <= cap {
        events
    } else {
        events.skip(events.len() - cap)
    }
}

/// The table of the event store that keeps the events of a message.
pub open spec fn table_name_of(message: MessageView) -> Seq<char> {
    match message {
        MessageView::GSConquered(_) => "gs_conquered"@,
        MessageView::GSAppeared(_) => "gs_appeared"@,
        MessageView::PlayersDisappeared(_) => "player_disappeared"@,
    }
}

/// Nothing in a batch tells a store whether it has seen the batch before, and
/// the latest view does not look for repeats: events that are stored twice
/// count twice. While the cap is not reached, all of them are served.
pub proof fn lemma_repeated_events_count_twice<T>(stored: Seq<T>, batch: Seq<T>, cap: nat)
    ensures
        latest_of(stored + batch + batch, cap).len() == if stored.len() + 2 * batch.len() <= cap {
            stored.len() + 2 * batch.len()
        } else {
            cap
        },
        stored.len() + 2 * batch.len() <= cap ==> latest_of(stored + batch + batch, cap) == stored
            + batch + batch,
{
}

/// What a message says of itself in the log.
pub open spec fn message_text(message: MessageView) -> Seq<char> {
    match message {
        MessageView::GSConquered(events) => "GSConquered(len="@ + decimal_digits(events.len())
            + ")"@,
        MessageView::GSAppeared(events) => "GSAppeared(len="@ + decimal_digits(events.len())
            + ")"@,
        MessageView::PlayersDisappeared(events) => "PlayerDisappeared(len="@ + decimal_digits(
            events.len(),
        ) + ")"@,
    }
}

/// What a view of the store says of itself in the log.
pub open spec fn new_data_text(state: CachedDBStateView) -> Seq<char> {
    "NewData(len_gs_appeared="@ + decimal_digits(state.gs_appeared.len())
        + ", len_gs_conquered="@ + decimal_digits(state.gs_conquered.len())
        + ", len_players_left="@ + decimal_digits(state.players_left.len()) + ")"@
}

/// The page that the cache serves: how many events of each kind it holds.
pub open spec fn summary_text(state: CachedDBStateView) -> Seq<char> {
    "Hello World! DB Contents: OldGS "@ + decimal_digits(state.gs_conquered.len())
        + " / NewGS "@ + decimal_digits(state.gs_appeared.len()) + " / Players "@
        + decimal_digits(state.players_left.len())
}

/// A change set without events goes to the event store in no batch at all.
pub proof fn lemma_nothing_to_store_for_no_change(changes: ChangeSetView)
    ensures
        messages_of(changes).len() == 0 <==> changes.is_empty(),
{
}

/// No two batches of one change set are of the same kind, and none is
/// without events.
pub proof fn lemma_batches_distinct_and_filled(changes: ChangeSetView)
    ensures
        messages_of(changes).len() <= 3,
        forall|i: int|
            0 <= i < messages_of(changes).len() ==> match #[trigger] messages_of(changes)[i] {
                MessageView::GSAppeared(events) => events.len() > 0 && events
                    == changes.gs_appeared,
                MessageView::GSConquered(events) => events.len() > 0 && events
                    == changes.gs_conquered,
                MessageView::PlayersDisappeared(events) => events.len() > 0 && events
                    == changes.players_disappeared,
            },
{
}

/// Keeps the last `LATEST_PER_CATEGORY` elements of `events`.
fn keep_latest<T>(events: Vec<T>) -> (kept: Vec<T>)
    ensures
        kept@ == latest_of(events@, LATEST_PER_CATEGORY as nat),
{
    let mut events = events;
    if events.len() <= LATEST_PER_CATEGORY {
        events
    } else {
        let surplus = events.len() - LATEST_PER_CATEGORY;
        events.split_off(surplus)
    }
}

impl ChangeSet {
    /// Makes the batches in which the change set goes to the event store.
    ///
    /// Delivery is at least once: the batches carry nothing by which a store
    /// could recognise a change set that it has stored already, so a change
    /// set that is published twice is stored twice.
    pub fn into_messages(self) -> (messages: Vec<MessageFromModelToDB>)
        ensures
            message_views(messages@) == messages_of(self@),
    {
        let mut messages: Vec<MessageFromModelToDB> = Vec::new();
        if self.gs_appeared.len() > 0 {
            messages.push(MessageFromModelToDB::GSAppeared(self.gs_appeared));
        }
        if self.gs_conquered.len() > 0 {
            messages.push(MessageFromModelToDB::GSConquered(self.gs_conquered));
        }
        if self.players_disappeared.len() > 0 {
            messages.push(MessageFromModelToDB::PlayersDisappeared(self.players_disappeared));
        }
        assert(message_views(messages@) =~= messages_of(self@));
        messages
    }
}

impl MessageFromModelToDB {
    /// Names the table of the event store that keeps the events of the
    /// message.
    pub fn table_name(&self) -> (name: &'static str)
        ensures
            name@ == table_name_of(self@),
    {
        match self {
            MessageFromModelToDB::GSConquered(_) => "gs_conquered",
            MessageFromModelToDB::GSAppeared(_) => "gs_appeared",
            MessageFromModelToDB::PlayersDisappeared(_) => "player_disappeared",
        }
    }

    /// Says in a few words what the message holds.
    pub fn describe(&self) -> (text: String)
        ensures
            text@ == message_text(self@),
    {
        let (mut text, len) = match self {
            MessageFromModelToDB::GSConquered(events) => (
                String::from_str("GSConquered(len="),
                events.len(),
            ),
            MessageFromModelToDB::GSAppeared(events) => (
                String::from_str("GSAppeared(len="),
                events.len(),
            ),
            MessageFromModelToDB::PlayersDisappeared(events) => (
                String::from_str("PlayerDisappeared(len="),
                events.len(),
            ),
        };
        push_decimal(&mut text, len);
        text.append(")");
        text
    }
}

impl MessageFromDBToWeb {
    /// Says in a few words what the message holds.
    pub fn describe(&self) -> (text: String)
        ensures
            self matches MessageFromDBToWeb::NewData(state) && text@ == new_data_text(state@),
    {
        match self {
            MessageFromDBToWeb::NewData(state) => {
                let mut text = String::from_str("NewData(len_gs_appeared=");
                push_decimal(&mut text, state.gs_appeared.len());
                text.append(", len_gs_conquered=");
                push_decimal(&mut text, state.gs_conquered.len());
                text.append(", len_players_left=");
                push_decimal(&mut text, state.players_left.len());
                text.append(")");
                text
            },
        }
    }
}

impl CachedDBState {
    /// The view of a store that holds no event.
    pub fn new() -> (state: CachedDBState)
        ensures
            state@.gs_conquered.len() == 0,
            state@.gs_appeared.len() == 0,
            state@.players_left.len() == 0,
    {
        CachedDBState {
            gs_conquered: Vec::new(),
            gs_appeared: Vec::new(),
            players_left: Vec::new(),
        }
    }

    /// The view of a store that holds the given events, each list oldest
    /// first: of each kind the last [`LATEST_PER_CATEGORY`] are kept. Events
    /// that the store holds twice are kept twice.
    pub fn latest(
        gs_conquered: Vec<OrmGS>,
        gs_appeared: Vec<OrmGS>,
        players_left: Vec<OrmPlayer>,
    ) -> (state: CachedDBState)
        ensures
            state@.gs_conquered == latest_of(
                territory_views(gs_conquered@),
                LATEST_PER_CATEGORY as nat,
            ),
            state@.gs_appeared == latest_of(
                territory_views(gs_appeared@),
                LATEST_PER_CATEGORY as nat,
            ),
            state@.players_left == latest_of(
                occupant_views(players_left@),
                LATEST_PER_CATEGORY as nat,
            ),
            state@.gs_conquered.len() <= LATEST_PER_CATEGORY,
            state@.gs_appeared.len() <= LATEST_PER_CATEGORY,
            state@.players_left.len() <= LATEST_PER_CATEGORY,
    {
        let state = CachedDBState {
            gs_conquered: keep_latest(gs_conquered),
            gs_appeared: keep_latest(gs_appeared),
            players_left: keep_latest(players_left),
        };
        assert(state@.gs_conquered =~= latest_of(
            territory_views(gs_conquered@),
            LATEST_PER_CATEGORY as nat,
        ));
        assert(state@.gs_appeared =~= latest_of(
            territory_views(gs_appeared@),
            LATEST_PER_CATEGORY as nat,
        ));
        assert(state@.players_left =~= latest_of(
            occupant_views(players_left@),
            LATEST_PER_CATEGORY as nat,
        ));
        state
    }

    /// Writes the page that the cache serves.
    pub fn summary(&self) -> (text: String)
        ensures
            text@ == summary_text(self@),
    {
        let mut text = String::from_str("Hello World! DB Contents: OldGS ");
        push_decimal(&mut text, self.gs_conquered.len());
        text.append(" / NewGS ");
        push_decimal(&mut text, self.gs_appeared.len());
        text.append(" / Players ");
        push_decimal(&mut text, self.players_left.len());
        text
    }
}

} // verus!
