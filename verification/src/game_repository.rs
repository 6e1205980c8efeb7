//! CRUD for the game aggregate, and the update reconciliation protocol.
//!
//! An update carries a partial payload: the present scalar fields rewrite
//! the game row, then the players, the claims and the chat of the game are
//! reconciled against the payload's collections, in that fixed order.  Each
//! statement commits independently — there is no transaction, so a failure
//! partway leaves the earlier steps in place.  Reads mirror the path: fetch
//! the scalar row, then hydrate chat, players and claims from their tables.

use vstd::prelude::*;
use crate::chat_message_repository::{
    delete_all_messages_in_chat, delete_message_by_id, get_all_messages_in_chat, save_message,
    sorted_by_sent_at,
};
use crate::chat_repository::{get_chat, update_number_of_messages_of_chat, counts_set_by_id};
use crate::claim_repository::{
    create_claim, delete_all_claims_of_game, get_all_claims, cards_reassigned,
    create_claim_stopped,
};
use crate::errors::{RepoError, StatusClass};
use crate::player_repository::{
    add_player, delete_player, get_all_players, stored_player_row,
};
use crate::store::{
    Store, find_game, has_game, has_player, has_chat, has_chat_of_game, has_msg, has_claim,
    chats_of_game, claims_of_game, players_of_game, player_in_game, msgs_of_chat, has_card,
    in_chat, not_in_chat, msg_id_not, player_id_not, game_key, game_id_not, cards_of_player,
    cards_of_claim, unique_keys, player_key, lemma_filter_push, lemma_filter_all_true,
    lemma_filter_all_false, lemma_filter_filter, lemma_filter_equiv, lemma_remove_by_key,
    lemma_filter_unique_keys, lemma_filter_elements, lemma_filter_parallel,
    lemma_filter_singleton,
};
use crate::types::{
    Card, Chat, ChatMessage, Claim, ClaimRow, Game, GameRow, Player, PlayerRow, UpdateGameDTO,
};

verus! {

/// What the dynamic game-update statement makes of a game row: each present
/// scalar field of the payload replaces the column, the rest keep their
/// values.
pub open spec fn apply_game_row_update(r: GameRow, d: UpdateGameDTO) -> GameRow {
    GameRow {
        id: r.id,
        started_at: r.started_at,
        round_number: if d.round_number is Some {
            d.round_number->Some_0
        } else {
            r.round_number
        },
        state: if d.state is Some {
            d.state->Some_0
        } else {
            r.state
        },
        which_player_turn: if d.which_player_turn is Some {
            d.which_player_turn->Some_0
        } else {
            r.which_player_turn
        },
        card_to_play: if d.card_to_play is Some {
            d.card_to_play->Some_0
        } else {
            r.card_to_play
        },
    }
}

/// Inserts a game row from the aggregate's scalar fields.  Fails with an
/// internal error when the identifier is already taken; nothing changes
/// then.  On success the stored row comes back with empty collections.
pub fn add_game(store: &mut Store, game: Game) -> (res: Result<Game, RepoError>)
    requires
        old(store).wf(),
    ensures
        final(store).wf(),
        old(store).agrees_except_games(*final(store)),
        match res {
            Ok(g) => {
                &&& !has_game(old(store).games@, game.row.id@)
                &&& final(store).games@ == old(store).games@.push(game.row)
                &&& g.row == game.row
                &&& g.players@.len() == 0
                &&& g.claims@.len() == 0
                &&& g.chat.messages@.len() == 0
            },
            Err(e) => {
                &&& final(store).games@ == old(store).games@
                &&& has_game(old(store).games@, game.row.id@)
                &&& e.is_query(StatusClass::InternalServerError)
            },
        },
{
    match find_game(&store.games, &game.row.id) {
        Some(_) => Err(
            RepoError::query("Failed to add game to the database", StatusClass::InternalServerError),
        ),
        None => {
            let row = game.row.clone();
            let echo = game.row.clone();
            proof {
                let pushed = old(store).games@.push(row);
                assert forall|i: int, j: int| 0 <= i < j < pushed.len() implies game_key()(
                    pushed[i],
                ) != game_key()(pushed[j]) by {
                    if j < old(store).games@.len() {
                        assert(game_key()(old(store).games@[i]) != game_key()(
                            old(store).games@[j],
                        ));
                    }
                }
            }
            store.games.push(row);
            Ok(
                Game {
                    row: echo,
                    players: Vec::new(),
                    claims: Vec::new(),
                    chat: Chat {
                        row: crate::types::ChatRow {
                            id: String::new(),
                            number_of_messages: 0,
                            game_id: String::new(),
                        },
                        messages: Vec::new(),
                    },
                },
            )
        },
    }
}

/// Deletes the game row with the given identifier; absent rows delete to
/// nothing.  Child rows keep their foreign keys — cascading is the
/// caller's business.
pub fn delete_game(store: &mut Store, game_id: &String) -> (res: Result<(), RepoError>)
    requires
        old(store).wf(),
    ensures
        final(store).wf(),
        old(store).agrees_except_games(*final(store)),
        res is Ok,
        final(store).games@ == old(store).games@.filter(game_id_not(game_id@)),
{
    match find_game(&store.games, game_id) {
        None => {
            proof {
                lemma_filter_all_true(old(store).games@, game_id_not(game_id@));
            }
            Ok(())
        },
        Some(i) => {
            proof {
                lemma_remove_by_key(old(store).games@, game_key(), i as int, game_id_not(game_id@));
                lemma_filter_unique_keys(old(store).games@, game_id_not(game_id@), game_key());
            }
            store.games.remove(i);
            Ok(())
        },
    }
}

/// Rewrites a game row from the present scalar fields of the payload.
/// Fails with an internal error when no row carries the payload's
/// identifier, since the update statement then returns no row; nothing
/// changes on failure.
fn update_game_row(store: &mut Store, game_data: &UpdateGameDTO) -> (res: Result<
    GameRow,
    RepoError,
>)
    requires
        old(store).wf(),
    ensures
        final(store).wf(),
        old(store).agrees_except_games(*final(store)),
        match res {
            Ok(r) => {
                &&& has_game(old(store).games@, game_data.id@)
                &&& final(store).games@.len() == old(store).games@.len()
                &&& forall|j: int|
                    0 <= j < old(store).games@.len() && (#[trigger] old(store).games@[j]).id@
                        != game_data.id@ ==> final(store).games@[j] == old(store).games@[j]
                &&& forall|j: int|
                    0 <= j < old(store).games@.len() && (#[trigger] old(store).games@[j]).id@
                        == game_data.id@ ==> final(store).games@[j] == apply_game_row_update(
                        old(store).games@[j],
                        *game_data,
                    ) && r == final(store).games@[j]
            },
            Err(e) => {
                &&& final(store).games@ == old(store).games@
                &&& !has_game(old(store).games@, game_data.id@)
                &&& e.is_query(StatusClass::InternalServerError)
            },
        },
{
    match find_game(&store.games, &game_data.id) {
        None => Err(
            RepoError::query(
                "Failed to update game in the database",
                StatusClass::InternalServerError,
            ),
        ),
        Some(i) => {
            let cur = &store.games[i];
            let updated = GameRow {
                id: cur.id.clone(),
                started_at: cur.started_at,
                round_number: match game_data.round_number {
                    Some(n) => n,
                    None => cur.round_number,
                },
                state: match game_data.state {
                    Some(s) => s,
                    None => cur.state,
                },
                which_player_turn: match &game_data.which_player_turn {
                    Some(w) => w.clone(),
                    None => cur.which_player_turn.clone(),
                },
                card_to_play: match game_data.card_to_play {
                    Some(c) => c,
                    None => cur.card_to_play,
                },
            };
            proof {
                assert(updated == apply_game_row_update(old(store).games@[i as int], *game_data));
            }
            let echo = updated.clone();
            store.games.set(i, updated);
            proof {
                let newseq = store.games@;
                assert forall|a: int, b: int| 0 <= a < b < newseq.len() implies game_key()(
                    newseq[a],
                ) != game_key()(newseq[b]) by {
                    assert(game_key()(old(store).games@[a]) != game_key()(old(store).games@[b]));
                }
                assert forall|j: int|
                    0 <= j < old(store).games@.len() && (old(store).games@[j]).id@
                        == game_data.id@ implies j == i as int by {
                    if j != i as int {
                        assert(game_key()(old(store).games@[j]) != game_key()(
                            old(store).games@[i as int],
                        ));
                    }
                }
            }
            Ok(echo)
        },
    }
}

/// Fetches a game and hydrates its chat (messages included), its players
/// (cards included) and its claims (cards included).  Fails as not found
/// when the row is absent, when the game has no chat, or when it has no
/// players.
pub fn get_game_by_id(store: &Store, game_id: &String) -> (res: Result<Game, RepoError>)
    requires
        store.wf(),
    ensures
        match res {
            Ok(g) => {
                &&& store.games@.contains(g.row)
                &&& g.row.id@ == game_id@
                &&& g.chat.row == chats_of_game(store.chats@, game_id@)[0]
                &&& g.chat.messages@.to_multiset() == msgs_of_chat(
                    store.messages@,
                    g.chat.row.id@,
                ).to_multiset()
                &&& sorted_by_sent_at(g.chat.messages@)
                &&& g.players@.len() == players_of_game(store.players@, game_id@).len() > 0
                &&& forall|k: int|
                    0 <= k < g.players@.len() ==> (#[trigger] g.players@[k]).row
                        == players_of_game(store.players@, game_id@)[k]
                        && g.players@[k].assigned_cards@ == cards_of_player(
                        store.cards@,
                        players_of_game(store.players@, game_id@)[k].id@,
                    )
                &&& g.claims@.len() == claims_of_game(store.claims@, game_id@).len()
                &&& forall|k: int|
                    0 <= k < g.claims@.len() ==> (#[trigger] g.claims@[k]).row == claims_of_game(
                        store.claims@,
                        game_id@,
                    )[k] && g.claims@[k].cards@ == cards_of_claim(
                        store.cards@,
                        claims_of_game(store.claims@, game_id@)[k].id@,
                    )
            },
            Err(e) => e.is_query(StatusClass::NotFound) && (!has_game(store.games@, game_id@)
                || !has_chat_of_game(store.chats@, game_id@) || players_of_game(
                store.players@,
                game_id@,
            ).len() == 0),
        },
{
    let i = match find_game(&store.games, game_id) {
        Some(i) => i,
        None => {
            return Err(RepoError::query("Game not found", StatusClass::NotFound));
        },
    };
    let row = store.games[i].clone();
    proof {
        assert(store.games@[i as int] == row);
    }
    let chat = match get_chat(store, None, Some(game_id)) {
        Ok(c) => c,
        Err(e) => {
            return Err(e);
        },
    };
    let players = match get_all_players(store, Some(game_id)) {
        Ok(p) => p,
        Err(e) => {
            return Err(e);
        },
    };
    let claims = match get_all_claims(store, Some(game_id), None) {
        Ok(c) => c,
        Err(e) => {
            return Err(e);
        },
    };
    Ok(Game { row, players, claims, chat })
}

/// Fetches every game and hydrates each one's players, claims and chat, one
/// child query per game.  An empty game table is a not-found failure; so is
/// a stored game without players or without a chat.
pub fn get_all_games(store: &Store) -> (res: Result<Vec<Game>, RepoError>)
    requires
        store.wf(),
    ensures
        match res {
            Ok(v) => {
                &&& store.games@.len() > 0
                &&& v@.len() == store.games@.len()
                &&& forall|k: int|
                    0 <= k < v@.len() ==> (#[trigger] v@[k]).row == store.games@[k]
                        && v@[k].chat.row == chats_of_game(store.chats@, store.games@[k].id@)[0]
                        && v@[k].players@.len() == players_of_game(
                        store.players@,
                        store.games@[k].id@,
                    ).len() && v@[k].claims@.len() == claims_of_game(
                        store.claims@,
                        store.games@[k].id@,
                    ).len()
            },
            Err(e) => e.is_query(StatusClass::NotFound) && (store.games@.len() == 0 || exists|k: int|
                0 <= k < store.games@.len() && (!has_chat_of_game(
                    store.chats@,
                    (#[trigger] store.games@[k]).id@,
                ) || players_of_game(store.players@, store.games@[k].id@).len() == 0)),
        },
{
    if store.games.len() == 0 {
        return Err(RepoError::query("No games found", StatusClass::NotFound));
    }
    let mut out: Vec<Game> = Vec::new();
    let mut i: usize = 0;
    while i < store.games.len()
        invariant
            store.wf(),
            i <= store.games@.len(),
            out@.len() == i,
            forall|k: int|
                0 <= k < i ==> (#[trigger] out@[k]).row == store.games@[k] && out@[k].chat.row
                    == chats_of_game(store.chats@, store.games@[k].id@)[0] && out@[k].players@.len()
                    == players_of_game(store.players@, store.games@[k].id@).len()
                    && out@[k].claims@.len() == claims_of_game(
                    store.claims@,
                    store.games@[k].id@,
                ).len(),
        decreases store.games@.len() - i,
    {
        let row = store.games[i].clone();
        proof {
            assert(store.games@[i as int] == row);
        }
        let players = match get_all_players(store, Some(&row.id)) {
            Ok(p) => p,
            Err(e) => {
                return Err(e);
            },
        };
        let claims = match get_all_claims(store, Some(&row.id), None) {
            Ok(c) => c,
            Err(e) => {
                return Err(e);
            },
        };
        let chat = match get_chat(store, None, Some(&row.id)) {
            Ok(c) => c,
            Err(e) => {
                return Err(e);
            },
        };
        out.push(Game { row, players, claims, chat });
        i = i + 1;
    }
    Ok(out)
}

/// Whether some player in the list carries identifier `id`.
pub open spec fn list_has_player(list: Seq<Player>, id: Seq<char>) -> bool {
    exists|i: int| 0 <= i < list.len() && (#[trigger] list[i]).row.id@ == id
}

/// A player row that survives reconciliation against `desired`: it belongs
/// to another game, or the desired set still names its identifier.
pub open spec fn player_keep(game: Seq<char>, desired: Seq<Player>) -> spec_fn(PlayerRow) -> bool {
    |p: PlayerRow| p.game_id@ != game || list_has_player(desired, p.id@)
}

/// A desired player absent from the current set, so due for insertion.
pub open spec fn player_is_new(cur: Seq<PlayerRow>) -> spec_fn(Player) -> bool {
    |d: Player| !has_player(cur, d.row.id@)
}

/// A current player row whose identifier the desired set still names.
pub open spec fn row_in_desired(desired: Seq<Player>) -> spec_fn(PlayerRow) -> bool {
    |p: PlayerRow| list_has_player(desired, p.id@)
}

/// A hydrated current player whose identifier the desired set still names.
pub open spec fn agg_in_desired(desired: Seq<Player>) -> spec_fn(Player) -> bool {
    |p: Player| list_has_player(desired, p.row.id@)
}

/// A player row that the deletion pass, having walked the first `upto`
/// current players, has not deleted.
pub open spec fn player_keep_pref(
    cur: Seq<Player>,
    desired: Seq<Player>,
    upto: int,
) -> spec_fn(PlayerRow) -> bool {
    |p: PlayerRow| !player_marked(cur, desired, upto, p.id@)
}

/// Whether the deletion pass over the first `upto` current players deletes
/// the row with identifier `id`.
pub open spec fn player_marked(
    cur: Seq<Player>,
    desired: Seq<Player>,
    upto: int,
    id: Seq<char>,
) -> bool {
    exists|k: int|
        0 <= k < upto && (#[trigger] cur[k]).row.id@ == id && !list_has_player(desired, id)
}

/// The rows that the player insert statement writes for a list of players,
/// in order.
pub open spec fn stored_rows(adds: Seq<Player>) -> Seq<PlayerRow> {
    adds.map_values(|p: Player| stored_player_row(p))
}

/// Every insertion the reconciliation will make goes through: no new
/// player's identifier collides with a surviving row or with an earlier
/// insertion.
pub open spec fn player_adds_ok(base: Seq<PlayerRow>, adds: Seq<Player>) -> bool {
    forall|k: int|
        0 <= k < adds.len() ==> !has_player(
            base + stored_rows(adds.subrange(0, k)),
            (#[trigger] adds[k]).row.id@,
        )
}

/// The player table after reconciliation stopped at a colliding insertion:
/// the deletions and the insertions made so far stay in place.
pub open spec fn player_sync_stopped(
    base: Seq<PlayerRow>,
    post: Seq<PlayerRow>,
    adds: Seq<Player>,
) -> bool {
    exists|k: int|
        {
            &&& 0 <= k < adds.len()
            &&& post == base + stored_rows(adds.subrange(0, k))
            &&& has_player(
                base + stored_rows(adds.subrange(0, k)),
                (#[trigger] adds[k]).row.id@,
            )
        }
}

/// The list that a successful reconciliation returns: the surviving current
/// players, hydrated as they were read, followed by the inserted ones, each
/// carrying its stored row and no hydrated cards.
pub open spec fn reconciled_players(
    v: Seq<Player>,
    kept: Seq<PlayerRow>,
    adds: Seq<Player>,
    cards: Seq<Card>,
) -> bool {
    &&& v.len() == kept.len() + adds.len()
    &&& forall|k: int|
        0 <= k < kept.len() ==> (#[trigger] v[k]).row == kept[k] && v[k].assigned_cards@
            == cards_of_player(cards, kept[k].id@)
    &&& forall|k: int|
        0 <= k < adds.len() ==> (#[trigger] v[kept.len() + k]).row == stored_player_row(adds[k])
            && v[kept.len() + k].assigned_cards@.len() == 0
}

/// Whether some player in the list carries the given identifier.
fn contains_player_id(list: &Vec<Player>, id: &String) -> (res: bool)
    ensures
        res == list_has_player(list@, id@),
{
    let mut i: usize = 0;
    while i < list.len()
        invariant
            i <= list@.len(),
            forall|j: int| 0 <= j < i ==> (#[trigger] list@[j]).row.id@ != id@,
        decreases list@.len() - i,
    {
        if list[i].row.id == *id {
            proof {
                assert(list@[i as int].row.id@ == id@);
            }
            return true;
        }
        i = i + 1;
    }
    false
}

/// Reconciles the players of a game against the payload's desired set: the
/// desired list is the end state by identifier.  Current players absent
/// from it are deleted, desired players absent from the current set are
/// inserted, players present in both are left untouched — no field update
/// happens through this path.  Requires a present, non-empty desired list
/// and a game that still has players; returns the reconciled list.  The
/// statements commit independently: a colliding insertion stops the pass
/// and leaves the deletions and earlier insertions in place.
pub fn update_players_in_game(store: &mut Store, game_data: &UpdateGameDTO) -> (res: Result<
    Vec<Player>,
    RepoError,
>)
    requires
        old(store).wf(),
    ensures
        final(store).wf(),
        old(store).agrees_except_players(*final(store)),
        ({
            let game = game_data.id@;
            let cur_rows = players_of_game(old(store).players@, game);
            match game_data.players {
                None => final(store).players@ == old(store).players@ && (res matches Err(e)
                    && e.is_query(StatusClass::InternalServerError)),
                Some(desired_vec) => {
                    let desired = desired_vec@;
                    let base = old(store).players@.filter(player_keep(game, desired));
                    let adds = desired.filter(player_is_new(cur_rows));
                    let kept = cur_rows.filter(row_in_desired(desired));
                    if desired.len() == 0 {
                        final(store).players@ == old(store).players@ && (res matches Err(e)
                            && e.is_query(StatusClass::BadRequest))
                    } else if cur_rows.len() == 0 {
                        final(store).players@ == old(store).players@ && (res matches Err(e)
                            && e.is_query(StatusClass::NotFound))
                    } else if player_adds_ok(base, adds) {
                        &&& res matches Ok(v) && reconciled_players(
                            v@,
                            kept,
                            adds,
                            old(store).cards@,
                        )
                        &&& final(store).players@ == base + stored_rows(adds)
                    } else {
                        &&& res matches Err(e) && e.is_query(StatusClass::InternalServerError)
                        &&& player_sync_stopped(base, final(store).players@, adds)
                    }
                },
            }
        }),
{
    let new_players = match &game_data.players {
        None => {
            return Err(
                RepoError::query(
                    "Function was called with invalid data passed to it! A new list of players is mandatory!",
                    StatusClass::InternalServerError,
                ),
            );
        },
        Some(players) => {
            if players.len() == 0 {
                return Err(
                    RepoError::query(
                        "An empty list of players was provided! That's an invalid data input!",
                        StatusClass::BadRequest,
                    ),
                );
            }
            players
        },
    };
    let all_current = match get_all_players(store, Some(&game_data.id)) {
        Ok(p) => p,
        Err(e) => {
            return Err(e);
        },
    };
    let ghost game = game_data.id@;
    let ghost cur_rows = players_of_game(old(store).players@, game);
    let ghost desired = new_players@;
    let ghost kept = cur_rows.filter(row_in_desired(desired));
    let ghost adds = desired.filter(player_is_new(cur_rows));
    let ghost base = old(store).players@.filter(player_keep(game, desired));

    // Deletion pass: walk the current players, delete those the desired
    // set no longer names, and collect the survivors as read.
    let mut result: Vec<Player> = Vec::new();
    let mut i: usize = 0;
    proof {
        lemma_filter_all_true(old(store).players@, player_keep_pref(all_current@, desired, 0));
    }
    while i < all_current.len()
        invariant
            old(store).wf(),
            store.wf(),
            old(store).agrees_except_players(*store),
            i <= all_current@.len(),
            desired == new_players@,
            desired.len() > 0,
            game == game_data.id@,
            cur_rows == players_of_game(old(store).players@, game),
            all_current@.len() == cur_rows.len(),
            forall|k: int|
                0 <= k < cur_rows.len() ==> (#[trigger] all_current@[k]).row == cur_rows[k]
                    && all_current@[k].assigned_cards@ == cards_of_player(
                    old(store).cards@,
                    cur_rows[k].id@,
                ),
            store.players@ == old(store).players@.filter(
                player_keep_pref(all_current@, desired, i as int),
            ),
            result@.len() == all_current@.subrange(0, i as int).filter(
                agg_in_desired(desired),
            ).len(),
            forall|k: int|
                0 <= k < result@.len() ==> (#[trigger] result@[k]).row == all_current@.subrange(
                    0,
                    i as int,
                ).filter(agg_in_desired(desired))[k].row && result@[k].assigned_cards@
                    == all_current@.subrange(0, i as int).filter(
                    agg_in_desired(desired),
                )[k].assigned_cards@,
        decreases all_current@.len() - i,
    {
        let found = contains_player_id(new_players, &all_current[i].row.id);
        proof {
            let cur = all_current@;
            let pre = cur.subrange(0, i as int);
            assert(cur.subrange(0, i + 1 as int) =~= pre.push(cur[i as int]));
            lemma_filter_push(pre, agg_in_desired(desired), cur[i as int]);
            assert(agg_in_desired(desired)(cur[i as int]) == found);
        }
        if found {
            let keep_p = all_current[i].clone();
            proof {
                assert(keep_p.row == all_current@[i as int].row && keep_p.assigned_cards@
                    == all_current@[i as int].assigned_cards@);
                let cur = all_current@;
                assert forall|idx: int|
                    0 <= idx < old(store).players@.len() implies player_keep_pref(
                    cur,
                    desired,
                    i + 1 as int,
                )(#[trigger] old(store).players@[idx]) == player_keep_pref(cur, desired, i as int)(
                    old(store).players@[idx],
                ) by {
                    let p = old(store).players@[idx];
                    if player_marked(cur, desired, i + 1 as int, p.id@) {
                        let k = choose|k: int|
                            0 <= k < i + 1 && (#[trigger] cur[k]).row.id@ == p.id@
                                && !list_has_player(desired, p.id@);
                        assert(k < i);
                    }
                    if player_marked(cur, desired, i as int, p.id@) {
                        let k = choose|k: int|
                            0 <= k < i && (#[trigger] cur[k]).row.id@ == p.id@ && !list_has_player(
                                desired,
                                p.id@,
                            );
                        assert(player_marked(cur, desired, i + 1 as int, p.id@));
                    }
                }
                lemma_filter_equiv(
                    old(store).players@,
                    player_keep_pref(cur, desired, i + 1 as int),
                    player_keep_pref(cur, desired, i as int),
                );
            }
            result.push(keep_p);
        } else {
            let ghost players_mid = store.players@;
            match delete_player(store, &all_current[i].row.id) {
                Ok(_) => {},
                Err(e) => {
                    return Err(e);
                },
            }
            proof {
                let cur = all_current@;
                let cid = cur[i as int].row.id@;
                assert forall|id: Seq<char>|
                    player_marked(cur, desired, i + 1 as int, id) == (player_marked(
                    cur,
                    desired,
                    i as int,
                    id,
                ) || id == cid) by {
                    if player_marked(cur, desired, i + 1 as int, id) {
                        let k = choose|k: int|
                            0 <= k < i + 1 && (#[trigger] cur[k]).row.id@ == id
                                && !list_has_player(desired, id);
                        if k < i {
                            assert(player_marked(cur, desired, i as int, id));
                        }
                    }
                    if player_marked(cur, desired, i as int, id) {
                        let k = choose|k: int|
                            0 <= k < i && (#[trigger] cur[k]).row.id@ == id && !list_has_player(
                                desired,
                                id,
                            );
                        assert(player_marked(cur, desired, i + 1 as int, id));
                    }
                    if id == cid && !list_has_player(desired, id) {
                        assert(cur[i as int].row.id@ == id);
                        assert(player_marked(cur, desired, i + 1 as int, id));
                    }
                }
                assert forall|p: PlayerRow| #[trigger]
                    player_keep_pref(cur, desired, i + 1 as int)(p) == (player_id_not(cid)(p)
                    && player_keep_pref(cur, desired, i as int)(p)) by {
                    assert(player_marked(cur, desired, i + 1 as int, p.id@) == (player_marked(
                        cur,
                        desired,
                        i as int,
                        p.id@,
                    ) || p.id@ == cid));
                }
                lemma_filter_filter(
                    old(store).players@,
                    player_id_not(cid),
                    player_keep_pref(cur, desired, i as int),
                    player_keep_pref(cur, desired, i + 1 as int),
                );
            }
        }
        i = i + 1;
    }
    proof {
        let cur = all_current@;
        assert(cur.subrange(0, cur.len() as int) =~= cur);
        // The walked-out deletion predicate is exactly "of this game and no
        // longer desired".
        assert forall|idx: int|
            0 <= idx < old(store).players@.len() implies player_keep_pref(
            cur,
            desired,
            cur.len() as int,
        )(#[trigger] old(store).players@[idx]) == player_keep(game, desired)(
            old(store).players@[idx],
        ) by {
            let p = old(store).players@[idx];
            if player_marked(cur, desired, cur.len() as int, p.id@) {
                let k = choose|k: int|
                    0 <= k < cur.len() && (#[trigger] cur[k]).row.id@ == p.id@ && !list_has_player(
                        desired,
                        p.id@,
                    );
                lemma_filter_elements(old(store).players@, player_in_game(game));
                assert(old(store).players@.contains(cur_rows[k]));
                let w = choose|w: int|
                    0 <= w < old(store).players@.len() && old(store).players@[w] == cur_rows[k];
                if w != idx {
                    assert(player_key()(old(store).players@[w]) != player_key()(
                        old(store).players@[idx],
                    ) || player_key()(old(store).players@[idx]) != player_key()(
                        old(store).players@[w],
                    ));
                }
                assert(p == cur_rows[k]);
                old(store).players@.lemma_filter_pred(player_in_game(game), k);
                assert(player_in_game(game)(cur_rows[k]));
            } else {
                if p.game_id@ == game && !list_has_player(desired, p.id@) {
                    old(store).players@.lemma_filter_contains(player_in_game(game), idx);
                    assert(cur_rows.contains(p));
                    let k = choose|k: int| 0 <= k < cur_rows.len() && cur_rows[k] == p;
                    assert(cur[k].row.id@ == p.id@);
                    assert(player_marked(cur, desired, cur.len() as int, p.id@));
                }
            }
        }
        lemma_filter_equiv(
            old(store).players@,
            player_keep_pref(cur, desired, cur.len() as int),
            player_keep(game, desired),
        );
        // The survivors collected mirror the kept rows.
        lemma_filter_parallel(
            cur,
            cur_rows,
            agg_in_desired(desired),
            row_in_desired(desired),
            (|p: Player| p.row),
        );
        lemma_filter_elements(cur, agg_in_desired(desired));
        let filtered = cur.filter(agg_in_desired(desired));
        assert forall|k: int| 0 <= k < kept.len() implies (#[trigger] result@[k]).row == kept[k]
            && result@[k].assigned_cards@ == cards_of_player(old(store).cards@, kept[k].id@) by {
            assert(result@[k].row == filtered[k].row && result@[k].assigned_cards@
                == filtered[k].assigned_cards@);
            assert(cur.contains(filtered[k]));
            let w = choose|w: int| 0 <= w < cur.len() && cur[w] == filtered[k];
            assert(filtered[k].assigned_cards@ == cards_of_player(
                old(store).cards@,
                cur_rows[w].id@,
            ));
            assert(filtered[k].row == cur_rows[w]);
        }
    }

    // Insertion pass: walk the desired players and insert those the
    // current set did not hold.
    let mut t: usize = 0;
    proof {
        lemma_filter_all_false_empty_prefix(desired, player_is_new(cur_rows));
        assert(base + stored_rows(desired.subrange(0, 0).filter(player_is_new(cur_rows))) =~= base);
    }
    while t < new_players.len()
        invariant
            old(store).wf(),
            store.wf(),
            old(store).agrees_except_players(*store),
            t <= new_players@.len(),
            desired == new_players@,
            game_data.players matches Some(ps) && ps@ == desired,
            desired.len() > 0,
            game == game_data.id@,
            cur_rows == players_of_game(old(store).players@, game),
            cur_rows.len() > 0,
            kept == cur_rows.filter(row_in_desired(desired)),
            adds == desired.filter(player_is_new(cur_rows)),
            base == old(store).players@.filter(player_keep(game, desired)),
            all_current@.len() == cur_rows.len(),
            forall|k: int|
                0 <= k < cur_rows.len() ==> (#[trigger] all_current@[k]).row == cur_rows[k],
            store.players@ == base + stored_rows(
                desired.subrange(0, t as int).filter(player_is_new(cur_rows)),
            ),
            player_adds_ok(base, desired.subrange(0, t as int).filter(player_is_new(cur_rows))),
            reconciled_players(
                result@,
                kept,
                desired.subrange(0, t as int).filter(player_is_new(cur_rows)),
                old(store).cards@,
            ),
        decreases new_players@.len() - t,
    {
        let ghost pref_adds = desired.subrange(0, t as int).filter(player_is_new(cur_rows));
        let found = contains_player_id(&all_current, &new_players[t].row.id);
        proof {
            let dd = desired[t as int];
            assert(desired.subrange(0, t + 1 as int) =~= desired.subrange(0, t as int).push(dd));
            lemma_filter_push(desired.subrange(0, t as int), player_is_new(cur_rows), dd);
            // Presence in the hydrated list and in the row set coincide.
            assert(list_has_player(all_current@, dd.row.id@) == has_player(
                cur_rows,
                dd.row.id@,
            )) by {
                if list_has_player(all_current@, dd.row.id@) {
                    let w = choose|w: int|
                        0 <= w < all_current@.len() && (#[trigger] all_current@[w]).row.id@
                            == dd.row.id@;
                    assert(cur_rows[w].id@ == dd.row.id@);
                }
                if has_player(cur_rows, dd.row.id@) {
                    let w = choose|w: int|
                        0 <= w < cur_rows.len() && (#[trigger] cur_rows[w]).id@ == dd.row.id@;
                    assert(all_current@[w].row.id@ == dd.row.id@);
                }
            }
            assert(player_is_new(cur_rows)(dd) == !found);
        }
        if !found {
            let to_add = new_players[t].clone();
            let ghost players_before = store.players@;
            match add_player(store, to_add) {
                Ok(p) => {
                    proof {
                        let dd = desired[t as int];
                        assert(stored_player_row(to_add) == stored_player_row(dd));
                        assert(stored_rows(pref_adds.push(dd)) =~= stored_rows(pref_adds).push(
                            stored_player_row(dd),
                        ));
                        assert(store.players@ =~= base + stored_rows(pref_adds.push(dd)));
                        assert(desired.subrange(0, t + 1 as int).filter(player_is_new(cur_rows))
                            == pref_adds.push(dd));
                        // The fresh insertion extends the collision-freedom
                        // record by one entry.
                        assert forall|k: int|
                            0 <= k < pref_adds.push(dd).len() implies !has_player(
                            base + stored_rows(pref_adds.push(dd).subrange(0, k)),
                            (#[trigger] pref_adds.push(dd)[k]).row.id@,
                        ) by {
                            if k < pref_adds.len() {
                                assert(pref_adds.push(dd).subrange(0, k) =~= pref_adds.subrange(
                                    0,
                                    k,
                                ));
                                assert(pref_adds.push(dd)[k] == pref_adds[k]);
                            } else {
                                assert(pref_adds.push(dd).subrange(0, k) =~= pref_adds);
                                assert(pref_adds.push(dd)[k] == dd);
                                assert(!has_player(players_before, dd.row.id@));
                            }
                        }
                    }
                    result.push(p);
                },
                Err(_) => {
                    proof {
                        let dd = desired[t as int];
                        assert(has_player(players_before, to_add.row.id@));
                        assert(has_player(players_before, dd.row.id@));
                        // Identify the failing desired player inside the
                        // full insertion list.
                        let pref = desired.subrange(0, t as int);
                        let suff = desired.subrange(t as int, desired.len() as int);
                        assert(desired =~= pref + suff);
                        Seq::filter_distributes_over_add(pref, suff, player_is_new(cur_rows));
                        let mid = desired.subrange(t as int, t + 1 as int);
                        let rest = desired.subrange(t + 1 as int, desired.len() as int);
                        assert(suff =~= mid + rest);
                        Seq::filter_distributes_over_add(mid, rest, player_is_new(cur_rows));
                        assert(mid =~= Seq::<Player>::empty().push(dd));
                        crate::store::lemma_filter_singleton(dd, player_is_new(cur_rows));
                        let k = pref_adds.len() as int;
                        assert(adds == pref_adds + (Seq::<Player>::empty().push(dd) + rest.filter(
                            player_is_new(cur_rows),
                        )));
                        assert(adds[k] == dd);
                        assert(adds.subrange(0, k) =~= pref_adds);
                        assert(has_player(base + stored_rows(adds.subrange(0, k)), adds[k].row.id@));
                        assert(player_sync_stopped(base, store.players@, adds));
                        assert(!player_adds_ok(base, adds));
                    }
                    return Err(
                        RepoError::query(
                            "Failed to add a desired player to the database",
                            StatusClass::InternalServerError,
                        ),
                    );
                },
            }
        } else {
            proof {
                let dd = desired[t as int];
                assert(desired.subrange(0, t + 1 as int).filter(player_is_new(cur_rows))
                    == pref_adds);
            }
        }
        t = t + 1;
    }
    proof {
        assert(desired.subrange(0, desired.len() as int) =~= desired);
    }
    Ok(result)
}

/// A filter over an empty prefix returns the empty sequence.
proof fn lemma_filter_all_false_empty_prefix(s: Seq<Player>, pred: spec_fn(Player) -> bool)
    ensures
        s.subrange(0, 0).filter(pred) == Seq::<Player>::empty(),
{
    assert(s.subrange(0, 0) =~= Seq::<Player>::empty());
    lemma_filter_all_false(s.subrange(0, 0), pred);
}

/// The list that reading the claims of a game returns: one hydrated claim
/// per row, in table order.
pub open spec fn hydrated_claims(v: Seq<Claim>, rows: Seq<ClaimRow>, cards: Seq<Card>) -> bool {
    &&& v.len() == rows.len()
    &&& forall|k: int|
        0 <= k < rows.len() ==> (#[trigger] v[k]).row == rows[k] && v[k].cards@ == cards_of_claim(
            cards,
            rows[k].id@,
        )
}

/// Reconciles the claims of a game against the payload's claims list.  The
/// list is mandatory; an empty list deletes every claim of the game, a
/// non-empty one persists exactly its second element — which therefore must
/// exist — and either way the returned list is a fresh read of all claims
/// persisted for the game.
pub fn update_claims_of_game(store: &mut Store, game_data: &UpdateGameDTO) -> (res: Result<
    Vec<Claim>,
    RepoError,
>)
    requires
        old(store).wf(),
    ensures
        final(store).wf(),
        old(store).games@ == final(store).games@,
        old(store).players@ == final(store).players@,
        old(store).chats@ == final(store).chats@,
        old(store).messages@ == final(store).messages@,
        ({
            let game = game_data.id@;
            match game_data.claims {
                None => final(store).same_tables(*old(store)) && (res matches Err(e) && e.is_query(
                    StatusClass::InternalServerError,
                )),
                Some(cl) => {
                    let desired = cl@;
                    if desired.len() == 0 {
                        &&& final(store).claims@ == old(store).claims@.filter(
                            crate::store::claim_not_in_game(game),
                        )
                        &&& final(store).cards@ == old(store).cards@
                        &&& res matches Ok(v) && v@.len() == 0
                    } else if desired.len() == 1 {
                        final(store).same_tables(*old(store)) && (res matches Err(e)
                            && e.is_process())
                    } else {
                        let c1 = desired[1];
                        if !has_claim(old(store).claims@, c1.row.id@) && (forall|t: int|
                            0 <= t < c1.cards@.len() ==> has_card(
                                old(store).cards@,
                                (#[trigger] c1.cards@[t]).id@,
                            )) {
                            &&& final(store).claims@ == old(store).claims@.push(c1.row)
                            &&& cards_reassigned(
                                old(store).cards@,
                                final(store).cards@,
                                c1.cards@,
                                c1.row.id,
                            )
                            &&& res matches Ok(v) && hydrated_claims(
                                v@,
                                claims_of_game(final(store).claims@, game),
                                final(store).cards@,
                            )
                        } else {
                            &&& res matches Err(e) && e.is_query(StatusClass::InternalServerError)
                            &&& if has_claim(old(store).claims@, c1.row.id@) {
                                final(store).same_tables(*old(store))
                            } else {
                                create_claim_stopped(*old(store), *final(store), c1)
                            }
                        }
                    }
                },
            }
        }),
{
    let desired = match &game_data.claims {
        None => {
            return Err(
                RepoError::query(
                    "Function was called with invalid data passed to it! A new list of claims is mandatory!",
                    StatusClass::InternalServerError,
                ),
            );
        },
        Some(cl) => cl,
    };
    if desired.len() == 0 {
        match delete_all_claims_of_game(store, &game_data.id) {
            Ok(_) => {},
            Err(e) => {
                return Err(e);
            },
        }
        let fresh = match get_all_claims(store, Some(&game_data.id), None) {
            Ok(v) => v,
            Err(e) => {
                return Err(e);
            },
        };
        proof {
            let game = game_data.id@;
            assert forall|k: int|
                0 <= k < store.claims@.len() implies !(crate::store::claim_in_game(game)(
                #[trigger] store.claims@[k],
            )) by {
                old(store).claims@.lemma_filter_pred(crate::store::claim_not_in_game(game), k);
            }
            lemma_filter_all_false(store.claims@, crate::store::claim_in_game(game));
        }
        return Ok(fresh);
    }
    if desired.len() == 1 {
        return Err(
            RepoError::process(
                "The claims list holds a single element, so there is no second one to persist!",
                "GameRepository::update_claims_of_game",
            ),
        );
    }
    let to_insert = desired[1].clone();
    match create_claim(store, to_insert) {
        Ok(_) => {},
        Err(e) => {
            return Err(e);
        },
    }
    match get_all_claims(store, Some(&game_data.id), None) {
        Ok(v) => Ok(v),
        Err(e) => Err(e),
    }
}

/// The game table after the scalar step of an update: the row carrying the
/// payload's identifier is rewritten from the present fields, the rest are
/// untouched.
pub open spec fn games_updated(pre: Seq<GameRow>, post: Seq<GameRow>, d: UpdateGameDTO) -> bool {
    &&& post.len() == pre.len()
    &&& forall|j: int|
        0 <= j < pre.len() && (#[trigger] pre[j]).id@ != d.id@ ==> post[j] == pre[j]
    &&& forall|j: int|
        0 <= j < pre.len() && (#[trigger] pre[j]).id@ == d.id@ ==> post[j]
            == apply_game_row_update(pre[j], d)
}

/// How a failed aggregate update leaves the store: the first failing step
/// names the error, every earlier step's effect stays in place, every later
/// table is untouched.  When every step's conditions hold, failure is
/// impossible — success is owed.
pub open spec fn update_game_failed(pre: Store, post: Store, d: UpdateGameDTO, e: RepoError) -> bool {
    let game = d.id@;
    let cur_rows = players_of_game(pre.players@, game);
    if !has_game(pre.games@, game) {
        post.same_tables(pre) && e.is_query(StatusClass::InternalServerError)
    } else {
        &&& games_updated(pre.games@, post.games@, d)
        &&& if d.players is None {
            post.players@ == pre.players@ && untouched_after_players(pre, post) && e.is_query(
                StatusClass::InternalServerError,
            )
        } else {
            let desired = d.players->Some_0@;
            let base = pre.players@.filter(player_keep(game, desired));
            let adds = desired.filter(player_is_new(cur_rows));
            if desired.len() == 0 {
                post.players@ == pre.players@ && untouched_after_players(pre, post) && e.is_query(
                    StatusClass::BadRequest,
                )
            } else if cur_rows.len() == 0 {
                post.players@ == pre.players@ && untouched_after_players(pre, post) && e.is_query(
                    StatusClass::NotFound,
                )
            } else if !player_adds_ok(base, adds) {
                player_sync_stopped(base, post.players@, adds) && untouched_after_players(pre, post)
                    && e.is_query(StatusClass::InternalServerError)
            } else {
                &&& post.players@ == base + stored_rows(adds)
                &&& if d.claims is None {
                    untouched_after_claims(pre, post) && post.claims@ == pre.claims@
                        && post.cards@ == pre.cards@ && e.is_query(
                        StatusClass::InternalServerError,
                    )
                } else {
                    let cl = d.claims->Some_0@;
                    if cl.len() == 1 {
                        untouched_after_claims(pre, post) && post.claims@ == pre.claims@
                            && post.cards@ == pre.cards@ && e.is_process()
                    } else if cl.len() >= 2 && has_claim(pre.claims@, cl[1].row.id@) {
                        untouched_after_claims(pre, post) && post.claims@ == pre.claims@
                            && post.cards@ == pre.cards@ && e.is_query(
                            StatusClass::InternalServerError,
                        )
                    } else if cl.len() >= 2 && !(forall|t: int|
                        0 <= t < cl[1].cards@.len() ==> has_card(
                            pre.cards@,
                            (#[trigger] cl[1].cards@[t]).id@,
                        )) {
                        untouched_after_claims(pre, post) && create_claim_stopped(pre, post, cl[1])
                            && e.is_query(StatusClass::InternalServerError)
                    } else {
                        &&& if cl.len() == 0 {
                            post.claims@ == pre.claims@.filter(
                                crate::store::claim_not_in_game(game),
                            ) && post.cards@ == pre.cards@
                        } else {
                            post.claims@ == pre.claims@.push(cl[1].row) && cards_reassigned(
                                pre.cards@,
                                post.cards@,
                                cl[1].cards@,
                                cl[1].row.id,
                            )
                        }
                        &&& if d.chat is None {
                            post.chats@ == pre.chats@ && post.messages@ == pre.messages@
                                && e.is_query(StatusClass::InternalServerError)
                        } else {
                            let chat = d.chat->Some_0;
                            let cid = chat.row.id@;
                            let desired_m = chat.messages@;
                            let cur_m = msgs_of_chat(pre.messages@, cid);
                            let mbase = pre.messages@.filter(msg_keep(cid, desired_m));
                            let madds = desired_m.filter(msg_is_new(cur_m));
                            if chat.row.number_of_messages == 0 && !has_chat(pre.chats@, cid) {
                                post.messages@ == pre.messages@.filter(not_in_chat(cid))
                                    && post.chats@ == pre.chats@ && e.is_process()
                            } else if chat.row.number_of_messages != 0 && !msg_adds_ok(
                                mbase,
                                madds,
                            ) {
                                msg_sync_stopped(mbase, post.messages@, madds) && post.chats@
                                    == pre.chats@ && e.is_query(StatusClass::InternalServerError)
                            } else {
                                false
                            }
                        }
                    }
                }
            }
        }
    }
}

/// The tables that the update has not reached when the player step fails.
pub open spec fn untouched_after_players(pre: Store, post: Store) -> bool {
    &&& post.claims@ == pre.claims@
    &&& post.cards@ == pre.cards@
    &&& post.chats@ == pre.chats@
    &&& post.messages@ == pre.messages@
}

/// The tables that the update has not reached when the claims step fails.
pub open spec fn untouched_after_claims(pre: Store, post: Store) -> bool {
    &&& post.chats@ == pre.chats@
    &&& post.messages@ == pre.messages@
}

/// Updates a game aggregate: rewrites the scalar row from the present
/// fields, then reconciles players, claims and chat against the payload, in
/// that fixed order, and returns the updated aggregate.  The payload must
/// name a stored game and carry all three collections.  The statements
/// commit independently: a failing step returns its error and leaves every
/// earlier step's effect in place.
pub fn update_game(store: &mut Store, game_data: UpdateGameDTO) -> (res: Result<Game, RepoError>)
    requires
        old(store).wf(),
    ensures
        final(store).wf(),
        ({
            let d = game_data;
            let game = d.id@;
            let cur_rows = players_of_game(old(store).players@, game);
            match res {
                Ok(g) => {
                    &&& has_game(old(store).games@, game)
                    &&& games_updated(old(store).games@, final(store).games@, d)
                    &&& (exists|j: int|
                        0 <= j < old(store).games@.len() && (#[trigger] old(store).games@[j]).id@
                            == game && g.row == apply_game_row_update(old(store).games@[j], d))
                    &&& d.players matches Some(desired_vec) && {
                        let desired = desired_vec@;
                        let base = old(store).players@.filter(player_keep(game, desired));
                        let adds = desired.filter(player_is_new(cur_rows));
                        let kept = cur_rows.filter(row_in_desired(desired));
                        &&& desired.len() > 0
                        &&& cur_rows.len() > 0
                        &&& player_adds_ok(base, adds)
                        &&& final(store).players@ == base + stored_rows(adds)
                        &&& reconciled_players(g.players@, kept, adds, old(store).cards@)
                    }
                    &&& d.claims matches Some(cl) && {
                        let desired = cl@;
                        &&& desired.len() != 1
                        &&& if desired.len() == 0 {
                            final(store).claims@ == old(store).claims@.filter(
                                crate::store::claim_not_in_game(game),
                            ) && final(store).cards@ == old(store).cards@ && g.claims@.len() == 0
                        } else {
                            let c1 = desired[1];
                            &&& !has_claim(old(store).claims@, c1.row.id@)
                            &&& final(store).claims@ == old(store).claims@.push(c1.row)
                            &&& cards_reassigned(
                                old(store).cards@,
                                final(store).cards@,
                                c1.cards@,
                                c1.row.id,
                            )
                            &&& hydrated_claims(
                                g.claims@,
                                claims_of_game(final(store).claims@, game),
                                final(store).cards@,
                            )
                        }
                    }
                    &&& d.chat matches Some(chat) && {
                        let cid = chat.row.id@;
                        let desired = chat.messages@;
                        let cur = msgs_of_chat(old(store).messages@, cid);
                        &&& g.chat.row == chat.row && g.chat.messages@ == chat.messages@
                        &&& if chat.row.number_of_messages == 0 {
                            &&& has_chat(old(store).chats@, cid)
                            &&& final(store).messages@ == old(store).messages@.filter(
                                not_in_chat(cid),
                            )
                            &&& counts_set_by_id(old(store).chats@, final(store).chats@, cid, 0)
                        } else {
                            &&& final(store).messages@ == old(store).messages@.filter(
                                msg_keep(cid, desired),
                            ) + desired.filter(msg_is_new(cur))
                            &&& final(store).chats@ == old(store).chats@
                        }
                    }
                },
                Err(e) => update_game_failed(*old(store), *final(store), d, e),
            }
        }),
{
    let row = match update_game_row(store, &game_data) {
        Ok(r) => r,
        Err(e) => {
            return Err(e);
        },
    };
    let players = match update_players_in_game(store, &game_data) {
        Ok(p) => p,
        Err(e) => {
            return Err(e);
        },
    };
    let claims = match update_claims_of_game(store, &game_data) {
        Ok(c) => c,
        Err(e) => {
            return Err(e);
        },
    };
    let chat = match update_chat_of_game(store, &game_data) {
        Ok(c) => c,
        Err(e) => {
            return Err(e);
        },
    };
    Ok(Game { row, players, claims, chat })
}

/// Whether some message in the list carries identifier `id`.
pub open spec fn list_has_msg(list: Seq<ChatMessage>, id: Seq<char>) -> bool {
    exists|i: int| 0 <= i < list.len() && (#[trigger] list[i]).id@ == id
}

/// A message row that survives chat reconciliation against `desired`: it
/// belongs to another chat, or the desired set still names its identifier.
pub open spec fn msg_keep(chat: Seq<char>, desired: Seq<ChatMessage>) -> spec_fn(
    ChatMessage,
) -> bool {
    |m: ChatMessage| m.chat_id@ != chat || list_has_msg(desired, m.id@)
}

/// A desired message absent from the current set, so due for insertion.
pub open spec fn msg_is_new(cur: Seq<ChatMessage>) -> spec_fn(ChatMessage) -> bool {
    |d: ChatMessage| !has_msg(cur, d.id@)
}

/// A message row that the deletion pass, having walked the first `upto`
/// current messages, has not deleted.
pub open spec fn msg_keep_pref(
    cur: Seq<ChatMessage>,
    desired: Seq<ChatMessage>,
    upto: int,
) -> spec_fn(ChatMessage) -> bool {
    |m: ChatMessage| !msg_marked(cur, desired, upto, m.id@)
}

/// Whether the deletion pass over the first `upto` current messages deletes
/// the row with identifier `id`.
pub open spec fn msg_marked(
    cur: Seq<ChatMessage>,
    desired: Seq<ChatMessage>,
    upto: int,
    id: Seq<char>,
) -> bool {
    exists|k: int|
        0 <= k < upto && (#[trigger] cur[k]).id@ == id && !list_has_msg(desired, id)
}

/// Every insertion the chat reconciliation will make goes through: no new
/// message's identifier collides with a surviving row or with an earlier
/// insertion.
pub open spec fn msg_adds_ok(base: Seq<ChatMessage>, adds: Seq<ChatMessage>) -> bool {
    forall|k: int|
        0 <= k < adds.len() ==> !has_msg(base + adds.subrange(0, k), (#[trigger] adds[k]).id@)
}

/// The message table after chat reconciliation stopped at a colliding
/// insertion: the deletions and the insertions made so far stay in place.
pub open spec fn msg_sync_stopped(
    base: Seq<ChatMessage>,
    post: Seq<ChatMessage>,
    adds: Seq<ChatMessage>,
) -> bool {
    exists|k: int|
        {
            &&& 0 <= k < adds.len()
            &&& post == base + adds.subrange(0, k)
            &&& has_msg(base + adds.subrange(0, k), (#[trigger] adds[k]).id@)
        }
}

/// Whether some message in the list carries the given identifier.
fn contains_msg_id(list: &Vec<ChatMessage>, id: &String) -> (res: bool)
    ensures
        res == list_has_msg(list@, id@),
{
    let mut i: usize = 0;
    while i < list.len()
        invariant
            i <= list@.len(),
            forall|j: int| 0 <= j < i ==> (#[trigger] list@[j]).id@ != id@,
        decreases list@.len() - i,
    {
        if list[i].id == *id {
            proof {
                assert(list@[i as int].id@ == id@);
            }
            return true;
        }
        i = i + 1;
    }
    false
}

/// Reconciles the chat of a game against the payload's chat.  The chat is
/// mandatory.  A desired message count of zero short-circuits: every
/// message of the chat is deleted and the counter is zeroed.  Otherwise the
/// desired message set is diffed against the current one by identifier:
/// current messages absent from it are deleted, desired messages absent
/// from the current set are inserted, the rest are untouched, and the
/// counter is not rewritten.  Returns the desired chat as given, not a
/// re-read.  The statements commit independently: a colliding insertion
/// stops the pass and leaves the deletions and earlier insertions in place.
pub fn update_chat_of_game(store: &mut Store, game_data: &UpdateGameDTO) -> (res: Result<
    Chat,
    RepoError,
>)
    requires
        old(store).wf(),
    ensures
        final(store).wf(),
        old(store).games@ == final(store).games@,
        old(store).players@ == final(store).players@,
        old(store).claims@ == final(store).claims@,
        old(store).cards@ == final(store).cards@,
        ({
            match game_data.chat {
                None => final(store).same_tables(*old(store)) && (res matches Err(e) && e.is_query(
                    StatusClass::InternalServerError,
                )),
                Some(chat) => {
                    let cid = chat.row.id@;
                    let desired = chat.messages@;
                    let cur = msgs_of_chat(old(store).messages@, cid);
                    if chat.row.number_of_messages == 0 {
                        &&& final(store).messages@ == old(store).messages@.filter(not_in_chat(cid))
                        &&& if has_chat(old(store).chats@, cid) {
                            counts_set_by_id(old(store).chats@, final(store).chats@, cid, 0)
                                && (res matches Ok(c) && c.row == chat.row && c.messages@
                                == chat.messages@)
                        } else {
                            final(store).chats@ == old(store).chats@ && (res matches Err(e)
                                && e.is_process())
                        }
                    } else {
                        let base = old(store).messages@.filter(msg_keep(cid, desired));
                        let adds = desired.filter(msg_is_new(cur));
                        &&& final(store).chats@ == old(store).chats@
                        &&& if msg_adds_ok(base, adds) {
                            final(store).messages@ == base + adds && (res matches Ok(c) && c.row
                                == chat.row && c.messages@ == chat.messages@)
                        } else {
                            msg_sync_stopped(base, final(store).messages@, adds) && (res matches
                                Err(e) && e.is_query(StatusClass::InternalServerError))
                        }
                    }
                },
            }
        }),
{
    let chat = match &game_data.chat {
        None => {
            return Err(
                RepoError::query(
                    "Function was called with invalid data passed to it! A new chat object is mandatory!",
                    StatusClass::InternalServerError,
                ),
            );
        },
        Some(c) => c,
    };
    if chat.row.number_of_messages == 0 {
        match delete_all_messages_in_chat(store, &chat.row.id) {
            Ok(_) => {},
            Err(e) => {
                return Err(e);
            },
        }
        match update_number_of_messages_of_chat(store, 0, Some(&chat.row.id), None) {
            Ok(_) => {},
            Err(e) => {
                return Err(e);
            },
        }
        return Ok(chat.clone());
    }
    let all_current = match get_all_messages_in_chat(store, &chat.row.id) {
        Ok(m) => m,
        Err(e) => {
            return Err(e);
        },
    };
    let ghost cid = chat.row.id@;
    let ghost desired = chat.messages@;
    let ghost cur_set = msgs_of_chat(old(store).messages@, cid);
    let ghost base = old(store).messages@.filter(msg_keep(cid, desired));
    let ghost adds = desired.filter(msg_is_new(cur_set));

    // Deletion pass: walk the chat's current messages and delete those the
    // desired set no longer names.
    let mut i: usize = 0;
    proof {
        lemma_filter_all_true(old(store).messages@, msg_keep_pref(all_current@, desired, 0));
    }
    while i < all_current.len()
        invariant
            old(store).wf(),
            store.wf(),
            old(store).games@ == store.games@,
            old(store).players@ == store.players@,
            old(store).claims@ == store.claims@,
            old(store).cards@ == store.cards@,
            old(store).chats@ == store.chats@,
            i <= all_current@.len(),
            cid == chat.row.id@,
            desired == chat.messages@,
            game_data.chat matches Some(c) && c == *chat,
            cur_set == msgs_of_chat(old(store).messages@, cid),
            unique_keys(all_current@, crate::store::msg_key()),
            forall|k: int| 0 <= k < all_current@.len() ==> cur_set.contains(
                #[trigger] all_current@[k],
            ),
            forall|id: Seq<char>| has_msg(all_current@, id) == has_msg(cur_set, id),
            store.messages@ == old(store).messages@.filter(
                msg_keep_pref(all_current@, desired, i as int),
            ),
        decreases all_current@.len() - i,
    {
        let found = contains_msg_id(&chat.messages, &all_current[i].id);
        let ghost cur = all_current@;
        if found {
            proof {
                assert forall|idx: int|
                    0 <= idx < old(store).messages@.len() implies msg_keep_pref(
                    cur,
                    desired,
                    i + 1 as int,
                )(#[trigger] old(store).messages@[idx]) == msg_keep_pref(cur, desired, i as int)(
                    old(store).messages@[idx],
                ) by {
                    let m = old(store).messages@[idx];
                    if msg_marked(cur, desired, i + 1 as int, m.id@) {
                        let k = choose|k: int|
                            0 <= k < i + 1 && (#[trigger] cur[k]).id@ == m.id@ && !list_has_msg(
                                desired,
                                m.id@,
                            );
                        assert(k < i);
                    }
                    if msg_marked(cur, desired, i as int, m.id@) {
                        let k = choose|k: int|
                            0 <= k < i && (#[trigger] cur[k]).id@ == m.id@ && !list_has_msg(
                                desired,
                                m.id@,
                            );
                        assert(msg_marked(cur, desired, i + 1 as int, m.id@));
                    }
                }
                lemma_filter_equiv(
                    old(store).messages@,
                    msg_keep_pref(cur, desired, i + 1 as int),
                    msg_keep_pref(cur, desired, i as int),
                );
            }
        } else {
            let ghost messages_mid = store.messages@;
            proof {
                // The row is still in the table: it was never marked, since
                // earlier walked identifiers differ from its own.
                let m = cur[i as int];
                assert(cur_set.contains(m));
                lemma_filter_elements(old(store).messages@, in_chat(cid));
                let w = choose|w: int|
                    0 <= w < old(store).messages@.len() && old(store).messages@[w] == m;
                assert(!msg_marked(cur, desired, i as int, m.id@)) by {
                    if msg_marked(cur, desired, i as int, m.id@) {
                        let k = choose|k: int|
                            0 <= k < i && (#[trigger] cur[k]).id@ == m.id@ && !list_has_msg(
                                desired,
                                m.id@,
                            );
                        assert(crate::store::msg_key()(cur[k]) != crate::store::msg_key()(
                            cur[i as int],
                        ));
                    }
                }
                old(store).messages@.lemma_filter_contains(
                    msg_keep_pref(cur, desired, i as int),
                    w,
                );
                assert(messages_mid.contains(m));
                let v = choose|v: int| 0 <= v < messages_mid.len() && messages_mid[v] == m;
                assert(has_msg(messages_mid, m.id@));
            }
            match delete_message_by_id(store, &all_current[i].id) {
                Ok(_) => {},
                Err(e) => {
                    return Err(e);
                },
            }
            proof {
                let mid_ = cur[i as int].id@;
                assert forall|id: Seq<char>|
                    msg_marked(cur, desired, i + 1 as int, id) == (msg_marked(
                    cur,
                    desired,
                    i as int,
                    id,
                ) || id == mid_) by {
                    if msg_marked(cur, desired, i + 1 as int, id) {
                        let k = choose|k: int|
                            0 <= k < i + 1 && (#[trigger] cur[k]).id@ == id && !list_has_msg(
                                desired,
                                id,
                            );
                        if k < i {
                            assert(msg_marked(cur, desired, i as int, id));
                        }
                    }
                    if msg_marked(cur, desired, i as int, id) {
                        let k = choose|k: int|
                            0 <= k < i && (#[trigger] cur[k]).id@ == id && !list_has_msg(
                                desired,
                                id,
                            );
                        assert(msg_marked(cur, desired, i + 1 as int, id));
                    }
                    if id == mid_ && !list_has_msg(desired, id) {
                        assert(cur[i as int].id@ == id);
                        assert(msg_marked(cur, desired, i + 1 as int, id));
                    }
                }
                assert forall|m: ChatMessage| #[trigger]
                    msg_keep_pref(cur, desired, i + 1 as int)(m) == (msg_id_not(mid_)(m)
                    && msg_keep_pref(cur, desired, i as int)(m)) by {
                    assert(msg_marked(cur, desired, i + 1 as int, m.id@) == (msg_marked(
                        cur,
                        desired,
                        i as int,
                        m.id@,
                    ) || m.id@ == mid_));
                }
                lemma_filter_filter(
                    old(store).messages@,
                    msg_id_not(mid_),
                    msg_keep_pref(cur, desired, i as int),
                    msg_keep_pref(cur, desired, i + 1 as int),
                );
            }
        }
        i = i + 1;
    }
    proof {
        let cur = all_current@;
        // The walked-out deletion predicate is exactly "of this chat and no
        // longer desired".
        assert forall|idx: int|
            0 <= idx < old(store).messages@.len() implies msg_keep_pref(
            cur,
            desired,
            cur.len() as int,
        )(#[trigger] old(store).messages@[idx]) == msg_keep(cid, desired)(
            old(store).messages@[idx],
        ) by {
            let m = old(store).messages@[idx];
            if msg_marked(cur, desired, cur.len() as int, m.id@) {
                let k = choose|k: int|
                    0 <= k < cur.len() && (#[trigger] cur[k]).id@ == m.id@ && !list_has_msg(
                        desired,
                        m.id@,
                    );
                assert(cur_set.contains(cur[k]));
                lemma_filter_elements(old(store).messages@, in_chat(cid));
                let w = choose|w: int|
                    0 <= w < old(store).messages@.len() && old(store).messages@[w] == cur[k];
                if w != idx {
                    assert(crate::store::msg_key()(old(store).messages@[w])
                        != crate::store::msg_key()(old(store).messages@[idx]) || crate::store::msg_key()(
                        old(store).messages@[idx],
                    ) != crate::store::msg_key()(old(store).messages@[w]));
                }
                assert(m == cur[k]);
                let kk = choose|kk: int| 0 <= kk < cur_set.len() && cur_set[kk] == cur[k];
                old(store).messages@.lemma_filter_pred(in_chat(cid), kk);
                assert(in_chat(cid)(m));
            } else {
                if m.chat_id@ == cid && !list_has_msg(desired, m.id@) {
                    old(store).messages@.lemma_filter_contains(in_chat(cid), idx);
                    assert(cur_set.contains(m));
                    assert(has_msg(cur_set, m.id@)) by {
                        let k = choose|k: int| 0 <= k < cur_set.len() && cur_set[k] == m;
                    }
                    assert(has_msg(cur, m.id@));
                    let k = choose|k: int| 0 <= k < cur.len() && (#[trigger] cur[k]).id@ == m.id@;
                    assert(msg_marked(cur, desired, cur.len() as int, m.id@));
                }
            }
        }
        lemma_filter_equiv(
            old(store).messages@,
            msg_keep_pref(cur, desired, cur.len() as int),
            msg_keep(cid, desired),
        );
    }

    // Insertion pass: walk the desired messages and insert those the
    // current set did not hold.
    let mut t: usize = 0;
    proof {
        assert(desired.subrange(0, 0) =~= Seq::<ChatMessage>::empty());
        lemma_filter_all_false(desired.subrange(0, 0), msg_is_new(cur_set));
        assert(base + desired.subrange(0, 0).filter(msg_is_new(cur_set)) =~= base);
    }
    while t < chat.messages.len()
        invariant
            old(store).wf(),
            store.wf(),
            old(store).games@ == store.games@,
            old(store).players@ == store.players@,
            old(store).claims@ == store.claims@,
            old(store).cards@ == store.cards@,
            old(store).chats@ == store.chats@,
            t <= chat.messages@.len(),
            cid == chat.row.id@,
            desired == chat.messages@,
            game_data.chat matches Some(c) && c == *chat,
            chat.row.number_of_messages != 0,
            cur_set == msgs_of_chat(old(store).messages@, cid),
            base == old(store).messages@.filter(msg_keep(cid, desired)),
            adds == desired.filter(msg_is_new(cur_set)),
            unique_keys(all_current@, crate::store::msg_key()),
            forall|id: Seq<char>| has_msg(all_current@, id) == has_msg(cur_set, id),
            store.messages@ == base + desired.subrange(0, t as int).filter(msg_is_new(cur_set)),
            msg_adds_ok(base, desired.subrange(0, t as int).filter(msg_is_new(cur_set))),
        decreases chat.messages@.len() - t,
    {
        let ghost pref_adds = desired.subrange(0, t as int).filter(msg_is_new(cur_set));
        let found = contains_msg_id(&all_current, &chat.messages[t].id);
        proof {
            let dd = desired[t as int];
            assert(desired.subrange(0, t + 1 as int) =~= desired.subrange(0, t as int).push(dd));
            lemma_filter_push(desired.subrange(0, t as int), msg_is_new(cur_set), dd);
            assert(list_has_msg(all_current@, dd.id@) == has_msg(all_current@, dd.id@)) by {
                if list_has_msg(all_current@, dd.id@) {
                    let w = choose|w: int|
                        0 <= w < all_current@.len() && (#[trigger] all_current@[w]).id@ == dd.id@;
                    assert(has_msg(all_current@, dd.id@));
                }
                if has_msg(all_current@, dd.id@) {
                    let w = choose|w: int|
                        0 <= w < all_current@.len() && (#[trigger] all_current@[w]).id@ == dd.id@;
                    assert(list_has_msg(all_current@, dd.id@));
                }
            }
            assert(msg_is_new(cur_set)(dd) == !found);
        }
        if !found {
            let to_add = chat.messages[t].clone();
            let ghost messages_before = store.messages@;
            match save_message(store, &to_add) {
                Ok(_) => {
                    proof {
                        let dd = desired[t as int];
                        assert(to_add == dd);
                        assert(store.messages@ =~= base + pref_adds.push(dd));
                        assert(desired.subrange(0, t + 1 as int).filter(msg_is_new(cur_set))
                            == pref_adds.push(dd));
                        assert forall|k: int|
                            0 <= k < pref_adds.push(dd).len() implies !has_msg(
                            base + pref_adds.push(dd).subrange(0, k),
                            (#[trigger] pref_adds.push(dd)[k]).id@,
                        ) by {
                            if k < pref_adds.len() {
                                assert(pref_adds.push(dd).subrange(0, k) =~= pref_adds.subrange(
                                    0,
                                    k,
                                ));
                                assert(pref_adds.push(dd)[k] == pref_adds[k]);
                            } else {
                                assert(pref_adds.push(dd).subrange(0, k) =~= pref_adds);
                                assert(pref_adds.push(dd)[k] == dd);
                                assert(!has_msg(messages_before, dd.id@));
                            }
                        }
                    }
                },
                Err(_) => {
                    proof {
                        let dd = desired[t as int];
                        assert(to_add == dd);
                        assert(has_msg(messages_before, dd.id@));
                        let pref = desired.subrange(0, t as int);
                        let suff = desired.subrange(t as int, desired.len() as int);
                        assert(desired =~= pref + suff);
                        Seq::filter_distributes_over_add(pref, suff, msg_is_new(cur_set));
                        let mid2 = desired.subrange(t as int, t + 1 as int);
                        let rest = desired.subrange(t + 1 as int, desired.len() as int);
                        assert(suff =~= mid2 + rest);
                        Seq::filter_distributes_over_add(mid2, rest, msg_is_new(cur_set));
                        assert(mid2 =~= Seq::<ChatMessage>::empty().push(dd));
                        lemma_filter_singleton(dd, msg_is_new(cur_set));
                        let k = pref_adds.len() as int;
                        assert(adds == pref_adds + (Seq::<ChatMessage>::empty().push(dd)
                            + rest.filter(msg_is_new(cur_set))));
                        assert(adds[k] == dd);
                        assert(adds.subrange(0, k) =~= pref_adds);
                        assert(has_msg(base + adds.subrange(0, k), adds[k].id@));
                        assert(msg_sync_stopped(base, store.messages@, adds));
                        assert(!msg_adds_ok(base, adds));
                    }
                    return Err(
                        RepoError::query(
                            "Failed to add a desired chat message to the database!",
                            StatusClass::InternalServerError,
                        ),
                    );
                },
            }
        } else {
            proof {
                let dd = desired[t as int];
                assert(desired.subrange(0, t + 1 as int).filter(msg_is_new(cur_set)) == pref_adds);
            }
        }
        t = t + 1;
    }
    proof {
        assert(desired.subrange(0, desired.len() as int) =~= desired);
    }
    Ok(chat.clone())
}

} // verus!
