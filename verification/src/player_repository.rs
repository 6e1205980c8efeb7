//! CRUD operations for players.
//!
//! A player belongs to exactly one game.  The insert statement writes the
//! identifier, name, game and join time; score and last update time start at
//! their column defaults.  Bulk reads hydrate each returned player's
//! assigned cards with one card query per row.

use vstd::prelude::*;
use crate::card_repository::get_all_cards;
use crate::errors::{RepoError, StatusClass};
use crate::store::{
    Store, find_player, has_player, players_of_game, player_in_game, player_id_not, player_key,
    lemma_filter_push, lemma_filter_all_true, lemma_remove_by_key, lemma_filter_unique_keys,
    cards_of_player,
};
use crate::types::{Player, PlayerRow, UpdatePlayerDTO};

verus! {

/// The row that the player insert statement writes: identifier, name, game
/// and join time from the payload, score and last update time defaulted.
pub open spec fn stored_player_row(p: Player) -> PlayerRow {
    PlayerRow {
        id: p.row.id,
        name: p.row.name,
        game_id: p.row.game_id,
        joined_at: p.row.joined_at,
        score: 0,
        last_time_update_requested: 0,
    }
}

/// What a player-update statement makes of a player row: each present field
/// of the payload replaces the column, the rest keep their values.
pub open spec fn apply_player_update(r: PlayerRow, d: UpdatePlayerDTO) -> PlayerRow {
    PlayerRow {
        id: r.id,
        name: if d.name is Some {
            d.name->Some_0
        } else {
            r.name
        },
        game_id: r.game_id,
        joined_at: r.joined_at,
        score: if d.score is Some {
            d.score->Some_0
        } else {
            r.score
        },
        last_time_update_requested: if d.last_time_update_requested is Some {
            d.last_time_update_requested->Some_0
        } else {
            r.last_time_update_requested
        },
    }
}

/// Inserts a player row.  Fails with an internal error, echoing the payload,
/// when the identifier is already taken; nothing changes then.  On success
/// the returned player carries the stored row and no hydrated cards.
pub fn add_player(store: &mut Store, player: Player) -> (res: Result<Player, RepoError>)
    requires
        old(store).wf(),
    ensures
        final(store).wf(),
        old(store).agrees_except_players(*final(store)),
        match res {
            Ok(p) => {
                &&& !has_player(old(store).players@, player.row.id@)
                &&& final(store).players@ == old(store).players@.push(stored_player_row(player))
                &&& p.row == stored_player_row(player)
                &&& p.assigned_cards@.len() == 0
            },
            Err(e) => {
                &&& final(store).players@ == old(store).players@
                &&& has_player(old(store).players@, player.row.id@)
                &&& e.is_query(StatusClass::InternalServerError)
            },
        },
{
    match find_player(&store.players, &player.row.id) {
        Some(_) => Err(
            RepoError::query_with_echo(
                "Failed to add player to the database",
                &player.row.id,
                StatusClass::InternalServerError,
            ),
        ),
        None => {
            let row = PlayerRow {
                id: player.row.id,
                name: player.row.name,
                game_id: player.row.game_id,
                joined_at: player.row.joined_at,
                score: 0,
                last_time_update_requested: 0,
            };
            let echo = row.clone();
            proof {
                let pushed = old(store).players@.push(row);
                assert forall|i: int, j: int| 0 <= i < j < pushed.len() implies player_key()(
                    pushed[i],
                ) != player_key()(pushed[j]) by {
                    if j < old(store).players@.len() {
                        assert(player_key()(old(store).players@[i]) != player_key()(
                            old(store).players@[j],
                        ));
                    }
                }
            }
            store.players.push(row);
            Ok(Player { row: echo, assigned_cards: Vec::new() })
        },
    }
}

/// Updates a player row from the present fields of the payload.  Fails with
/// an internal error, echoing the payload, when no row carries the payload's
/// identifier, since the update statement then returns no row; nothing
/// changes on failure.  On success the returned player carries the updated
/// row and no hydrated cards.
pub fn update_player(store: &mut Store, player_data: UpdatePlayerDTO) -> (res: Result<
    Player,
    RepoError,
>)
    requires
        old(store).wf(),
    ensures
        final(store).wf(),
        old(store).agrees_except_players(*final(store)),
        match res {
            Ok(p) => {
                &&& has_player(old(store).players@, player_data.id@)
                &&& final(store).players@.len() == old(store).players@.len()
                &&& forall|j: int|
                    0 <= j < old(store).players@.len() && (#[trigger] old(store).players@[j]).id@
                        != player_data.id@ ==> final(store).players@[j] == old(store).players@[j]
                &&& forall|j: int|
                    0 <= j < old(store).players@.len() && (#[trigger] old(store).players@[j]).id@
                        == player_data.id@ ==> final(store).players@[j] == apply_player_update(
                        old(store).players@[j],
                        player_data,
                    ) && p.row == final(store).players@[j]
                &&& p.assigned_cards@.len() == 0
            },
            Err(e) => {
                &&& final(store).players@ == old(store).players@
                &&& !has_player(old(store).players@, player_data.id@)
                &&& e.is_query(StatusClass::InternalServerError)
            },
        },
{
    match find_player(&store.players, &player_data.id) {
        None => Err(
            RepoError::query_with_echo(
                "Failed to update player in the database",
                &player_data.id,
                StatusClass::InternalServerError,
            ),
        ),
        Some(i) => {
            let cur = &store.players[i];
            let updated = PlayerRow {
                id: cur.id.clone(),
                name: match &player_data.name {
                    Some(n) => n.clone(),
                    None => cur.name.clone(),
                },
                game_id: cur.game_id.clone(),
                joined_at: cur.joined_at,
                score: match player_data.score {
                    Some(s) => s,
                    None => cur.score,
                },
                last_time_update_requested: match player_data.last_time_update_requested {
                    Some(t) => t,
                    None => cur.last_time_update_requested,
                },
            };
            proof {
                assert(updated == apply_player_update(old(store).players@[i as int], player_data));
            }
            let echo = updated.clone();
            store.players.set(i, updated);
            proof {
                let newseq = store.players@;
                assert forall|a: int, b: int| 0 <= a < b < newseq.len() implies player_key()(
                    newseq[a],
                ) != player_key()(newseq[b]) by {
                    assert(player_key()(old(store).players@[a]) != player_key()(
                        old(store).players@[b],
                    ));
                }
                assert forall|j: int|
                    0 <= j < old(store).players@.len() && (old(store).players@[j]).id@
                        == player_data.id@ implies j == i as int by {
                    if j != i as int {
                        assert(player_key()(old(store).players@[j]) != player_key()(
                            old(store).players@[i as int],
                        ));
                    }
                }
            }
            Ok(Player { row: echo, assigned_cards: Vec::new() })
        },
    }
}

/// Deletes the player row with the given identifier; absent rows delete to
/// nothing.
pub fn delete_player(store: &mut Store, player_id: &String) -> (res: Result<(), RepoError>)
    requires
        old(store).wf(),
    ensures
        final(store).wf(),
        old(store).agrees_except_players(*final(store)),
        res is Ok,
        final(store).players@ == old(store).players@.filter(player_id_not(player_id@)),
{
    match find_player(&store.players, player_id) {
        None => {
            proof {
                lemma_filter_all_true(old(store).players@, player_id_not(player_id@));
            }
            Ok(())
        },
        Some(i) => {
            proof {
                lemma_remove_by_key(
                    old(store).players@,
                    player_key(),
                    i as int,
                    player_id_not(player_id@),
                );
                lemma_filter_unique_keys(
                    old(store).players@,
                    player_id_not(player_id@),
                    player_key(),
                );
            }
            store.players.remove(i);
            Ok(())
        },
    }
}

/// Fetches the player row with the given identifier, without hydrating its
/// cards.
pub fn get_player(store: &Store, player_id: &String) -> (res: Result<Player, RepoError>)
    ensures
        match res {
            Ok(p) => has_player(store.players@, player_id@) && (exists|i: int|
                0 <= i < store.players@.len() && #[trigger] store.players@[i] == p.row) && p.row.id@
                == player_id@ && p.assigned_cards@.len() == 0,
            Err(e) => !has_player(store.players@, player_id@) && e.is_query(StatusClass::NotFound),
        },
{
    match find_player(&store.players, player_id) {
        Some(i) => {
            let row = store.players[i].clone();
            proof {
                assert(store.players@[i as int] == row);
            }
            Ok(Player { row, assigned_cards: Vec::new() })
        },
        None => Err(RepoError::query("Player not found", StatusClass::NotFound)),
    }
}

/// The player rows of the given game, in table order.
pub fn collect_players_of_game(players: &Vec<PlayerRow>, game: &String) -> (res: Vec<PlayerRow>)
    ensures
        res@ == players_of_game(players@, game@),
{
    let mut out: Vec<PlayerRow> = Vec::new();
    let mut i: usize = 0;
    while i < players.len()
        invariant
            i <= players@.len(),
            out@ == players_of_game(players@.subrange(0, i as int), game@),
        decreases players@.len() - i,
    {
        let keep = players[i].game_id == *game;
        proof {
            assert(players@.subrange(0, i + 1 as int) =~= players@.subrange(0, i as int).push(
                players@[i as int],
            ));
            lemma_filter_push(
                players@.subrange(0, i as int),
                player_in_game(game@),
                players@[i as int],
            );
            assert(player_in_game(game@)(players@[i as int]) == keep);
        }
        if keep {
            out.push(players[i].clone());
        }
        i = i + 1;
    }
    proof {
        assert(players@.subrange(0, players@.len() as int) =~= players@);
    }
    out
}

/// Clones a player-row list, keeping every element.
fn clone_player_rows(v: &Vec<PlayerRow>) -> (res: Vec<PlayerRow>)
    ensures
        res@ == v@,
{
    let mut out: Vec<PlayerRow> = Vec::new();
    let mut i: usize = 0;
    while i < v.len()
        invariant
            i <= v@.len(),
            out@ == v@.subrange(0, i as int),
        decreases v@.len() - i,
    {
        out.push(v[i].clone());
        i = i + 1;
        assert(out@ =~= v@.subrange(0, i as int));
    }
    assert(out@ =~= v@);
    out
}

/// Fetches player rows — all of them, or those of one game — and hydrates
/// each returned player's assigned cards with one card query per row.  An
/// empty result is a not-found failure.
pub fn get_all_players(store: &Store, game_id: Option<&String>) -> (res: Result<
    Vec<Player>,
    RepoError,
>)
    ensures
        ({
            let rows = match game_id {
                Some(g) => players_of_game(store.players@, g@),
                None => store.players@,
            };
            match res {
                Ok(v) => {
                    &&& rows.len() > 0
                    &&& v@.len() == rows.len()
                    &&& forall|k: int|
                        0 <= k < rows.len() ==> (#[trigger] v@[k]).row == rows[k]
                            && v@[k].assigned_cards@ == cards_of_player(store.cards@, rows[k].id@)
                },
                Err(e) => rows.len() == 0 && e.is_query(StatusClass::NotFound),
            }
        }),
{
    let rows = match game_id {
        Some(g) => collect_players_of_game(&store.players, g),
        None => clone_player_rows(&store.players),
    };
    let ghost rows_spec = match game_id {
        Some(g) => players_of_game(store.players@, g@),
        None => store.players@,
    };
    let mut out: Vec<Player> = Vec::new();
    let mut i: usize = 0;
    while i < rows.len()
        invariant
            i <= rows@.len(),
            rows@ == rows_spec,
            out@.len() == i,
            forall|k: int|
                0 <= k < i ==> (#[trigger] out@[k]).row == rows@[k] && out@[k].assigned_cards@
                    == cards_of_player(store.cards@, rows@[k].id@),
        decreases rows@.len() - i,
    {
        let cards = get_all_cards(store, None, Some(&rows[i].id));
        out.push(Player { row: rows[i].clone(), assigned_cards: cards });
        i = i + 1;
    }
    if out.len() == 0 {
        Err(RepoError::query("No players found", StatusClass::NotFound))
    } else {
        Ok(out)
    }
}

} // verus!
