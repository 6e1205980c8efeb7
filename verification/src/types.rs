//! Entity types of the card-game store.
//!
//! Every entity is identified by an opaque string identifier, unique within
//! its table.  Timestamps are plain integers (epoch milliseconds); the game
//! lifecycle phase and the card slot to play are integer indices into an
//! enumeration that an outside rule engine owns, so this layer only
//! round-trips them.
//!
//! Each entity comes in two shapes: the row that the store holds (scalar
//! columns only) and the aggregate that read paths return, with the derived
//! child collections hydrated from the other tables.

use vstd::prelude::*;

verus! {

/// A card, owned by at most one claim or one player at a time, never both.
#[derive(Debug)]
pub struct Card {
    pub id: String,
    /// Identifier of the claim that owns this card, if any.
    pub claim_id: Option<String>,
    /// Identifier of the player that owns this card, if any.
    pub player_id: Option<String>,
}

impl Card {
    /// A card may be owned by a claim or by a player, never by both.
    pub open spec fn owners_exclusive(self) -> bool {
        !(self.claim_id is Some && self.player_id is Some)
    }
}

impl Clone for Card {
    fn clone(&self) -> (res: Self)
        ensures
            res == *self,
    {
        Card { id: self.id.clone(), claim_id: clone_opt(&self.claim_id), player_id: clone_opt(
            &self.player_id,
        ) }
    }
}

/// Clones an optional string, keeping the value.
pub fn clone_opt(o: &Option<String>) -> (res: Option<String>)
    ensures
        res == *o,
{
    match o {
        Some(s) => Some(s.clone()),
        None => None,
    }
}

/// The scalar columns of a player row.
#[derive(Debug)]
pub struct PlayerRow {
    pub id: String,
    pub name: String,
    /// Identifier of the one game this player belongs to.
    pub game_id: String,
    pub joined_at: u64,
    pub score: i64,
    pub last_time_update_requested: u64,
}

impl Clone for PlayerRow {
    fn clone(&self) -> (res: Self)
        ensures
            res == *self,
    {
        PlayerRow {
            id: self.id.clone(),
            name: self.name.clone(),
            game_id: self.game_id.clone(),
            joined_at: self.joined_at,
            score: self.score,
            last_time_update_requested: self.last_time_update_requested,
        }
    }
}

/// A player aggregate: the row plus the cards assigned to the player,
/// hydrated at read time.
#[derive(Debug)]
pub struct Player {
    pub row: PlayerRow,
    pub assigned_cards: Vec<Card>,
}

impl Clone for Player {
    fn clone(&self) -> (res: Self)
        ensures
            res.row == self.row,
            res.assigned_cards@ == self.assigned_cards@,
    {
        let cards = clone_cards(&self.assigned_cards);
        Player { row: self.row.clone(), assigned_cards: cards }
    }
}

/// Clones a card list, keeping every element.
pub fn clone_cards(v: &Vec<Card>) -> (res: Vec<Card>)
    ensures
        res@ == v@,
{
    let mut out: Vec<Card> = Vec::new();
    let mut i: usize = 0;
    while i < v.len()
        invariant
            i <= v@.len(),
            out@ == v@.subrange(0, i as int),
        decreases v@.len() - i,
    {
        out.push(v[i].clone());
        i = i + 1;
        assert(out@ =~= v@.subrange(0, i as int));
    }
    assert(out@ =~= v@);
    out
}

/// A chat message row; the table and the aggregate share this shape.
#[derive(Debug)]
pub struct ChatMessage {
    pub id: String,
    /// Identifier of the player who sent the message.
    pub player_id: String,
    pub content: String,
    /// Creation time; message lists are ordered by it, ascending.
    pub sent_at: u64,
    /// Identifier of the chat this message belongs to.
    pub chat_id: String,
}

impl Clone for ChatMessage {
    fn clone(&self) -> (res: Self)
        ensures
            res == *self,
    {
        ChatMessage {
            id: self.id.clone(),
            player_id: self.player_id.clone(),
            content: self.content.clone(),
            sent_at: self.sent_at,
            chat_id: self.chat_id.clone(),
        }
    }
}

/// The scalar columns of a chat row.
#[derive(Debug)]
pub struct ChatRow {
    pub id: String,
    /// Denormalized count of the chat's messages; every mutating path keeps
    /// it equal to the number of message rows of this chat.
    pub number_of_messages: u64,
    /// Identifier of the one game this chat belongs to.
    pub game_id: String,
}

impl Clone for ChatRow {
    fn clone(&self) -> (res: Self)
        ensures
            res == *self,
    {
        ChatRow {
            id: self.id.clone(),
            number_of_messages: self.number_of_messages,
            game_id: self.game_id.clone(),
        }
    }
}

/// A chat aggregate: the row plus its messages, hydrated at read time.
#[derive(Debug)]
pub struct Chat {
    pub row: ChatRow,
    pub messages: Vec<ChatMessage>,
}

impl Clone for Chat {
    fn clone(&self) -> (res: Self)
        ensures
            res.row == self.row,
            res.messages@ == self.messages@,
    {
        let msgs = clone_messages(&self.messages);
        Chat { row: self.row.clone(), messages: msgs }
    }
}

/// Clones a message list, keeping every element.
pub fn clone_messages(v: &Vec<ChatMessage>) -> (res: Vec<ChatMessage>)
    ensures
        res@ == v@,
{
    let mut out: Vec<ChatMessage> = Vec::new();
    let mut i: usize = 0;
    while i < v.len()
        invariant
            i <= v@.len(),
            out@ == v@.subrange(0, i as int),
        decreases v@.len() - i,
    {
        out.push(v[i].clone());
        i = i + 1;
        assert(out@ =~= v@.subrange(0, i as int));
    }
    assert(out@ =~= v@);
    out
}

/// The scalar columns of a claim row.
#[derive(Debug)]
pub struct ClaimRow {
    pub id: String,
    /// Identifier of the player who created the claim.
    pub created_by: String,
    pub number_of_cards: u64,
    /// Identifier of the game the claim belongs to.
    pub game_id: String,
}

impl Clone for ClaimRow {
    fn clone(&self) -> (res: Self)
        ensures
            res == *self,
    {
        ClaimRow {
            id: self.id.clone(),
            created_by: self.created_by.clone(),
            number_of_cards: self.number_of_cards,
            game_id: self.game_id.clone(),
        }
    }
}

/// A claim aggregate: the row plus the cards owned by the claim, hydrated at
/// read time through the cards' `claim_id` foreign key.
#[derive(Debug)]
pub struct Claim {
    pub row: ClaimRow,
    pub cards: Vec<Card>,
}

impl Clone for Claim {
    fn clone(&self) -> (res: Self)
        ensures
            res.row == self.row,
            res.cards@ == self.cards@,
    {
        let cards = clone_cards(&self.cards);
        Claim { row: self.row.clone(), cards }
    }
}

/// The scalar columns of a game row.
#[derive(Debug)]
pub struct GameRow {
    pub id: String,
    pub started_at: u64,
    pub round_number: u64,
    /// Lifecycle phase, persisted as an integer index into an enumeration
    /// owned by the rule engine.
    pub state: u32,
    /// Identifier of the player whose turn it is.
    pub which_player_turn: String,
    /// Card slot to play, persisted as an integer index like `state`.
    pub card_to_play: u32,
}

impl Clone for GameRow {
    fn clone(&self) -> (res: Self)
        ensures
            res == *self,
    {
        GameRow {
            id: self.id.clone(),
            started_at: self.started_at,
            round_number: self.round_number,
            state: self.state,
            which_player_turn: self.which_player_turn.clone(),
            card_to_play: self.card_to_play,
        }
    }
}

/// A game aggregate: the scalar row plus the three derived collections,
/// assembled at read time by querying the child tables by `game_id`.
#[derive(Debug)]
pub struct Game {
    pub row: GameRow,
    pub players: Vec<Player>,
    pub claims: Vec<Claim>,
    pub chat: Chat,
}

/// A partial update for a player: only the present fields change.
#[derive(Debug)]
pub struct UpdatePlayerDTO {
    pub id: String,
    pub name: Option<String>,
    pub score: Option<i64>,
    pub last_time_update_requested: Option<u64>,
}

/// A partial update for a card: reassigns its owner.  Built through
/// [`UpdateCardDTO::new`], which refuses a card owned by a claim and a player
/// at once.
#[derive(Debug)]
pub struct UpdateCardDTO {
    pub id: String,
    pub player_id: Option<String>,
    pub claim_id: Option<String>,
}

/// A partial update for a game aggregate: the scalar fields that are present
/// change; each present collection is reconciled against the stored one.
#[derive(Debug)]
pub struct UpdateGameDTO {
    pub id: String,
    pub state: Option<u32>,
    pub round_number: Option<u64>,
    pub card_to_play: Option<u32>,
    pub which_player_turn: Option<String>,
    /// Desired end-state set of the game's players.
    pub players: Option<Vec<Player>>,
    /// Desired claims list; empty means delete every claim of the game.
    pub claims: Option<Vec<Claim>>,
    /// Desired chat state, message set included.
    pub chat: Option<Chat>,
}

} // verus!
