//! CRUD operations for claims.
//!
//! A claim row carries its creator, its card count and its game; the cards
//! it owns hang off the card table through each card's `claim_id` foreign
//! key.  Creating a claim persists the row and then hands each listed card
//! to the claim, one card-update statement at a time; the statements commit
//! independently, so a failing hand-over leaves the earlier ones in place.

use vstd::prelude::*;
use crate::card_repository::{get_all_cards, update_card};
use crate::errors::{RepoError, StatusClass};
use crate::store::{
    Store, find_claim, has_claim, has_card, claims_of_game, claims_of_player, claim_in_game,
    claim_not_in_game, claim_by_player, claim_id_not, claim_key, cards_of_claim, lemma_filter_push,
    lemma_filter_all_true, lemma_remove_by_key, lemma_filter_unique_keys,
};
use crate::types::{Card, Claim, ClaimRow, UpdateCardDTO, clone_cards};

verus! {

/// A card handed to the claim with the given identifier: the claim owns it
/// and any player ownership is released.
pub open spec fn reassigned(c: Card, owner: String) -> Card {
    Card { id: c.id, claim_id: Some(owner), player_id: None }
}

/// The card table after the cards listed in `taken` are handed to `owner`:
/// every row whose identifier appears in `taken` is reassigned, the rest
/// are untouched.
pub open spec fn cards_reassigned(
    pre: Seq<Card>,
    post: Seq<Card>,
    taken: Seq<Card>,
    owner: String,
) -> bool {
    &&& post.len() == pre.len()
    &&& forall|j: int|
        0 <= j < pre.len() && !has_card(taken, (#[trigger] pre[j]).id@) ==> post[j] == pre[j]
    &&& forall|j: int|
        0 <= j < pre.len() && has_card(taken, (#[trigger] pre[j]).id@) ==> post[j] == reassigned(
            pre[j],
            owner,
        )
}

/// Fetches the claim row with the given identifier, without hydrating its
/// cards.
pub fn get_claim_by_id(store: &Store, id: &String) -> (res: Result<Claim, RepoError>)
    ensures
        match res {
            Ok(c) => store.claims@.contains(c.row) && c.row.id@ == id@ && c.cards@.len() == 0,
            Err(e) => !has_claim(store.claims@, id@) && e.is_query(StatusClass::NotFound),
        },
{
    match find_claim(&store.claims, id) {
        Some(i) => {
            let row = store.claims[i].clone();
            proof {
                assert(store.claims@[i as int] == row);
            }
            Ok(Claim { row, cards: Vec::new() })
        },
        None => Err(RepoError::query("The claim couldn't be found!", StatusClass::NotFound)),
    }
}

/// The claim rows of the given game, in table order.
fn collect_claims_of_game(claims: &Vec<ClaimRow>, game: &String) -> (res: Vec<ClaimRow>)
    ensures
        res@ == claims_of_game(claims@, game@),
{
    let mut out: Vec<ClaimRow> = Vec::new();
    let mut i: usize = 0;
    while i < claims.len()
        invariant
            i <= claims@.len(),
            out@ == claims_of_game(claims@.subrange(0, i as int), game@),
        decreases claims@.len() - i,
    {
        let keep = claims[i].game_id == *game;
        proof {
            assert(claims@.subrange(0, i + 1 as int) =~= claims@.subrange(0, i as int).push(
                claims@[i as int],
            ));
            lemma_filter_push(claims@.subrange(0, i as int), claim_in_game(game@), claims@[i as int]);
            assert(claim_in_game(game@)(claims@[i as int]) == keep);
        }
        if keep {
            out.push(claims[i].clone());
        }
        i = i + 1;
    }
    proof {
        assert(claims@.subrange(0, claims@.len() as int) =~= claims@);
    }
    out
}

/// The claim rows created by the given player, in table order.
fn collect_claims_of_player(claims: &Vec<ClaimRow>, player: &String) -> (res: Vec<ClaimRow>)
    ensures
        res@ == claims_of_player(claims@, player@),
{
    let mut out: Vec<ClaimRow> = Vec::new();
    let mut i: usize = 0;
    while i < claims.len()
        invariant
            i <= claims@.len(),
            out@ == claims_of_player(claims@.subrange(0, i as int), player@),
        decreases claims@.len() - i,
    {
        let keep = claims[i].created_by == *player;
        proof {
            assert(claims@.subrange(0, i + 1 as int) =~= claims@.subrange(0, i as int).push(
                claims@[i as int],
            ));
            lemma_filter_push(
                claims@.subrange(0, i as int),
                claim_by_player(player@),
                claims@[i as int],
            );
            assert(claim_by_player(player@)(claims@[i as int]) == keep);
        }
        if keep {
            out.push(claims[i].clone());
        }
        i = i + 1;
    }
    proof {
        assert(claims@.subrange(0, claims@.len() as int) =~= claims@);
    }
    out
}

/// Clones a claim-row list, keeping every element.
fn clone_claim_rows(v: &Vec<ClaimRow>) -> (res: Vec<ClaimRow>)
    ensures
        res@ == v@,
{
    let mut out: Vec<ClaimRow> = Vec::new();
    let mut i: usize = 0;
    while i < v.len()
        invariant
            i <= v@.len(),
            out@ == v@.subrange(0, i as int),
        decreases v@.len() - i,
    {
        out.push(v[i].clone());
        i = i + 1;
        assert(out@ =~= v@.subrange(0, i as int));
    }
    assert(out@ =~= v@);
    out
}

/// Fetches claim rows — filtered by game when a game identifier comes, else
/// by creator when a player identifier comes, else all — and hydrates each
/// returned claim's cards through the card table's `claim_id` key.
pub fn get_all_claims(
    store: &Store,
    game_id: Option<&String>,
    player_id: Option<&String>,
) -> (res: Result<Vec<Claim>, RepoError>)
    ensures
        res is Ok,
        ({
            let rows = match (game_id, player_id) {
                (Some(g), _) => claims_of_game(store.claims@, g@),
                (None, Some(p)) => claims_of_player(store.claims@, p@),
                (None, None) => store.claims@,
            };
            match res {
                Ok(v) => {
                    &&& v@.len() == rows.len()
                    &&& forall|k: int|
                        0 <= k < rows.len() ==> (#[trigger] v@[k]).row == rows[k] && v@[k].cards@
                            == cards_of_claim(store.cards@, rows[k].id@)
                },
                Err(_) => false,
            }
        }),
{
    let rows = match (game_id, player_id) {
        (Some(g), _) => collect_claims_of_game(&store.claims, g),
        (None, Some(p)) => collect_claims_of_player(&store.claims, p),
        (None, None) => clone_claim_rows(&store.claims),
    };
    let ghost rows_spec = match (game_id, player_id) {
        (Some(g), _) => claims_of_game(store.claims@, g@),
        (None, Some(p)) => claims_of_player(store.claims@, p@),
        (None, None) => store.claims@,
    };
    let mut out: Vec<Claim> = Vec::new();
    let mut i: usize = 0;
    while i < rows.len()
        invariant
            i <= rows@.len(),
            rows@ == rows_spec,
            out@.len() == i,
            forall|k: int|
                0 <= k < i ==> (#[trigger] out@[k]).row == rows@[k] && out@[k].cards@
                    == cards_of_claim(store.cards@, rows@[k].id@),
        decreases rows@.len() - i,
    {
        let cards = get_all_cards(store, Some(&rows[i].id), None);
        out.push(Claim { row: rows[i].clone(), cards });
        i = i + 1;
    }
    Ok(out)
}

/// The store after claim creation stopped at an absent listed card: the
/// claim row is in, and the cards listed before the absent one are handed
/// over — the statements already made commit independently and stay.
pub open spec fn create_claim_stopped(pre: Store, post: Store, claim: Claim) -> bool {
    exists|k: int|
        {
            &&& 0 <= k < claim.cards@.len()
            &&& !has_card(pre.cards@, (#[trigger] claim.cards@[k]).id@)
            &&& post.claims@ == pre.claims@.push(claim.row)
            &&& cards_reassigned(
                pre.cards@,
                post.cards@,
                claim.cards@.subrange(0, k),
                claim.row.id,
            )
        }
}

/// Persists a claim: inserts the row, then hands each listed card to the
/// claim, one card-update statement at a time.  Fails with an internal
/// error when the identifier is already taken (nothing changes then) or
/// when a listed card is absent — the row and the hand-overs made so far
/// then stay in place.
pub fn create_claim(store: &mut Store, claim: Claim) -> (res: Result<Claim, RepoError>)
    requires
        old(store).wf(),
    ensures
        final(store).wf(),
        old(store).games@ == final(store).games@,
        old(store).players@ == final(store).players@,
        old(store).chats@ == final(store).chats@,
        old(store).messages@ == final(store).messages@,
        match res {
            Ok(c) => {
                &&& !has_claim(old(store).claims@, claim.row.id@)
                &&& forall|t: int|
                    0 <= t < claim.cards@.len() ==> has_card(
                        old(store).cards@,
                        (#[trigger] claim.cards@[t]).id@,
                    )
                &&& final(store).claims@ == old(store).claims@.push(claim.row)
                &&& cards_reassigned(old(store).cards@, final(store).cards@, claim.cards@, claim.row.id)
                &&& c.row == claim.row
                &&& c.cards@ == claim.cards@
            },
            Err(e) => {
                &&& e.is_query(StatusClass::InternalServerError)
                &&& if has_claim(old(store).claims@, claim.row.id@) {
                    final(store).same_tables(*old(store))
                } else {
                    create_claim_stopped(*old(store), *final(store), claim)
                }
            },
        },
{
    match find_claim(&store.claims, &claim.row.id) {
        Some(_) => {
            return Err(
                RepoError::query_with_echo(
                    "Failed to add the claim to the database!",
                    &claim.row.id,
                    StatusClass::InternalServerError,
                ),
            );
        },
        None => {},
    }
    let row = claim.row.clone();
    proof {
        assert(!has_claim(old(store).claims@, claim.row.id@)) by {
            if has_claim(old(store).claims@, claim.row.id@) {
                let w = choose|w: int|
                    0 <= w < old(store).claims@.len() && (#[trigger] old(store).claims@[w]).id@
                        == claim.row.id@;
            }
        }
        let pushed = old(store).claims@.push(row);
        assert forall|i: int, j: int| 0 <= i < j < pushed.len() implies claim_key()(pushed[i])
            != claim_key()(pushed[j]) by {
            if j < old(store).claims@.len() {
                assert(claim_key()(old(store).claims@[i]) != claim_key()(old(store).claims@[j]));
            }
        }
    }
    store.claims.push(row);
    let mut t: usize = 0;
    while t < claim.cards.len()
        invariant
            t <= claim.cards@.len(),
            store.wf(),
            old(store).games@ == store.games@,
            old(store).players@ == store.players@,
            old(store).chats@ == store.chats@,
            old(store).messages@ == store.messages@,
            store.claims@ == old(store).claims@.push(claim.row),
            !has_claim(old(store).claims@, claim.row.id@),
            forall|s: int|
                0 <= s < t ==> has_card(old(store).cards@, (#[trigger] claim.cards@[s]).id@),
            cards_reassigned(
                old(store).cards@,
                store.cards@,
                claim.cards@.subrange(0, t as int),
                claim.row.id,
            ),
        decreases claim.cards@.len() - t,
    {
        let dto = match UpdateCardDTO::new(
            claim.cards[t].id.clone(),
            None,
            Some(claim.row.id.clone()),
        ) {
            Ok(d) => d,
            Err(e) => {
                return Err(e);
            },
        };
        let ghost cards_mid = store.cards@;
        match update_card(store, dto) {
            Ok(_) => {},
            Err(e) => {
                proof {
                    assert(!has_card(cards_mid, claim.cards@[t as int].id@));
                    assert forall|j: int|
                        0 <= j < old(store).cards@.len() implies old(store).cards@[j].id@
                        == cards_mid[j].id@ by {
                        if has_card(
                            claim.cards@.subrange(0, t as int),
                            old(store).cards@[j].id@,
                        ) {
                        }
                    }
                    assert(!has_card(old(store).cards@, claim.cards@[t as int].id@)) by {
                        if has_card(old(store).cards@, claim.cards@[t as int].id@) {
                            let w = choose|w: int|
                                0 <= w < old(store).cards@.len() && old(store).cards@[w].id@
                                    == claim.cards@[t as int].id@;
                            assert(cards_mid[w].id@ == claim.cards@[t as int].id@);
                        }
                    }
                    assert(create_claim_stopped(*old(store), *store, claim)) by {
                        let k = t as int;
                        assert(0 <= k < claim.cards@.len());
                        assert(!has_card(old(store).cards@, (claim.cards@[k]).id@));
                        assert(store.claims@ == old(store).claims@.push(claim.row));
                        assert(cards_reassigned(
                            old(store).cards@,
                            store.cards@,
                            claim.cards@.subrange(0, k),
                            claim.row.id,
                        ));
                    }
                }
                return Err(
                    RepoError::query_with_echo(
                        "Failed to hand a listed card to the claim!",
                        &claim.row.id,
                        StatusClass::InternalServerError,
                    ),
                );
            },
        }
        proof {
            let pre = claim.cards@.subrange(0, t as int);
            let post = claim.cards@.subrange(0, t + 1 as int);
            assert(post =~= pre.push(claim.cards@[t as int]));
            assert forall|id: Seq<char>| has_card(post, id) == (has_card(pre, id) || claim.cards@[t as int].id@
                == id) by {
                if has_card(pre, id) {
                    let w = choose|w: int| 0 <= w < pre.len() && pre[w].id@ == id;
                    assert(post[w].id@ == id);
                }
                if claim.cards@[t as int].id@ == id {
                    assert(post[post.len() - 1].id@ == id);
                }
                if has_card(post, id) {
                    let w = choose|w: int| 0 <= w < post.len() && post[w].id@ == id;
                    if w < pre.len() {
                        assert(pre[w].id@ == id);
                    }
                }
            }
            assert(has_card(cards_mid, claim.cards@[t as int].id@));
            assert forall|j: int|
                0 <= j < old(store).cards@.len() implies old(store).cards@[j].id@
                == cards_mid[j].id@ by {}
            assert(has_card(old(store).cards@, claim.cards@[t as int].id@)) by {
                let w = choose|w: int|
                    0 <= w < cards_mid.len() && cards_mid[w].id@ == claim.cards@[t as int].id@;
                assert(old(store).cards@[w].id@ == claim.cards@[t as int].id@);
            }
        }
        t = t + 1;
    }
    proof {
        assert(claim.cards@.subrange(0, claim.cards@.len() as int) =~= claim.cards@);
    }
    let cards_back = clone_cards(&claim.cards);
    Ok(Claim { row: claim.row, cards: cards_back })
}

/// Deletes the claim row with the given identifier; absent rows delete to
/// nothing.  The cards the claim owned keep their `claim_id` — cascading is
/// the caller's business.
pub fn delete_claim(store: &mut Store, claim_id: &String) -> (res: Result<(), RepoError>)
    requires
        old(store).wf(),
    ensures
        final(store).wf(),
        old(store).agrees_except_claims(*final(store)),
        res is Ok,
        final(store).claims@ == old(store).claims@.filter(claim_id_not(claim_id@)),
{
    match find_claim(&store.claims, claim_id) {
        None => {
            proof {
                lemma_filter_all_true(old(store).claims@, claim_id_not(claim_id@));
            }
            Ok(())
        },
        Some(i) => {
            proof {
                lemma_remove_by_key(old(store).claims@, claim_key(), i as int, claim_id_not(claim_id@));
                lemma_filter_unique_keys(old(store).claims@, claim_id_not(claim_id@), claim_key());
            }
            store.claims.remove(i);
            Ok(())
        },
    }
}

/// Deletes every claim row of the given game.
pub fn delete_all_claims_of_game(store: &mut Store, game_id: &String) -> (res: Result<
    (),
    RepoError,
>)
    requires
        old(store).wf(),
    ensures
        final(store).wf(),
        old(store).agrees_except_claims(*final(store)),
        res is Ok,
        final(store).claims@ == old(store).claims@.filter(claim_not_in_game(game_id@)),
{
    let mut out: Vec<ClaimRow> = Vec::new();
    let mut i: usize = 0;
    let n_rows = store.claims.len();
    while i < n_rows
        invariant
            n_rows == store.claims@.len(),
            i <= n_rows,
            store.claims@ == old(store).claims@,
            out@ == old(store).claims@.subrange(0, i as int).filter(claim_not_in_game(game_id@)),
        decreases n_rows - i,
    {
        let keep = store.claims[i].game_id != *game_id;
        proof {
            let pre = old(store).claims@;
            assert(pre.subrange(0, i + 1 as int) =~= pre.subrange(0, i as int).push(pre[i as int]));
            lemma_filter_push(pre.subrange(0, i as int), claim_not_in_game(game_id@), pre[i as int]);
            assert(claim_not_in_game(game_id@)(pre[i as int]) == keep);
        }
        if keep {
            let row = store.claims[i].clone();
            out.push(row);
        }
        i = i + 1;
    }
    proof {
        assert(old(store).claims@.subrange(0, old(store).claims@.len() as int) =~= old(
            store,
        ).claims@);
        lemma_filter_unique_keys(old(store).claims@, claim_not_in_game(game_id@), claim_key());
    }
    store.claims = out;
    Ok(())
}

} // verus!
