//! CRUD operations for cards.
//!
//! Cards are queryable by owner: by the claim or by the player that holds
//! them.  Ownership is reassigned through an update payload rather than by
//! insert and delete; assigning one owner releases the other, so a card is
//! never owned by a claim and a player at once.

use vstd::prelude::*;
use crate::errors::{RepoError, StatusClass};
use crate::store::{
    Store, find_card, has_card, cards_of_claim, cards_of_player, card_in_claim, card_of_player,
    card_id_not, card_key, lemma_filter_push, lemma_filter_all_true, lemma_remove_by_key,
    lemma_filter_unique_keys, lemma_filter_elements,
};
use crate::types::{Card, UpdateCardDTO, clone_cards};

verus! {

impl UpdateCardDTO {
    /// Builds a card-update payload; rejects one that would hand the card to
    /// a claim and a player at once.
    pub fn new(id: String, player_id: Option<String>, claim_id: Option<String>) -> (res: Result<
        UpdateCardDTO,
        RepoError,
    >)
        ensures
            match res {
                Ok(dto) => {
                    &&& !(player_id is Some && claim_id is Some)
                    &&& dto.id == id
                    &&& dto.player_id == player_id
                    &&& dto.claim_id == claim_id
                },
                Err(e) => player_id is Some && claim_id is Some && e.is_query(
                    StatusClass::BadRequest,
                ),
            },
    {
        if player_id.is_some() && claim_id.is_some() {
            return Err(
                RepoError::query(
                    "A card belongs to a claim or to a player, never to both!",
                    StatusClass::BadRequest,
                ),
            );
        }
        Ok(UpdateCardDTO { id, player_id, claim_id })
    }
}

/// What a card-update statement makes of a card row: a present `claim_id`
/// hands the card to that claim and releases any player, a present
/// `player_id` does the opposite, and a payload with neither leaves the row
/// as it is.  The claim takes precedence when both are present.
pub open spec fn apply_card_update(c: Card, d: UpdateCardDTO) -> Card {
    if d.claim_id is Some {
        Card { id: c.id, claim_id: d.claim_id, player_id: None }
    } else if d.player_id is Some {
        Card { id: c.id, claim_id: None, player_id: d.player_id }
    } else {
        c
    }
}

/// Inserts a card row.  Fails when the identifier is already taken or when
/// the card names two owners; nothing changes on failure.
pub fn add_card(store: &mut Store, card: Card) -> (res: Result<Card, RepoError>)
    requires
        old(store).wf(),
    ensures
        final(store).wf(),
        old(store).agrees_except_cards(*final(store)),
        match res {
            Ok(c) => {
                &&& card.owners_exclusive()
                &&& !has_card(old(store).cards@, card.id@)
                &&& final(store).cards@ == old(store).cards@.push(card)
                &&& c == card
            },
            Err(e) => {
                &&& final(store).cards@ == old(store).cards@
                &&& if !card.owners_exclusive() {
                    e.is_query(StatusClass::BadRequest)
                } else {
                    has_card(old(store).cards@, card.id@) && e.is_query(
                        StatusClass::InternalServerError,
                    )
                }
            },
        },
{
    if card.claim_id.is_some() && card.player_id.is_some() {
        return Err(
            RepoError::query(
                "A card belongs to a claim or to a player, never to both!",
                StatusClass::BadRequest,
            ),
        );
    }
    match find_card(&store.cards, &card.id) {
        Some(_) => Err(
            RepoError::query_with_echo(
                "Failed to add the card to the database!",
                &card.id,
                StatusClass::InternalServerError,
            ),
        ),
        None => {
            let echo = card.clone();
            proof {
                assert forall|i: int, j: int|
                    0 <= i < j < old(store).cards@.push(card).len() implies card_key()(
                    old(store).cards@.push(card)[i],
                ) != card_key()(old(store).cards@.push(card)[j]) by {
                    if j < old(store).cards@.len() {
                        assert(card_key()(old(store).cards@[i]) != card_key()(
                            old(store).cards@[j],
                        ));
                    }
                }
            }
            store.cards.push(card);
            Ok(echo)
        },
    }
}

/// Fetches the card row with the given identifier.
pub fn get_card(store: &Store, card_id: &String) -> (res: Result<Card, RepoError>)
    ensures
        match res {
            Ok(c) => exists|i: int|
                0 <= i < store.cards@.len() && #[trigger] store.cards@[i] == c && c.id@
                    == card_id@,
            Err(e) => !has_card(store.cards@, card_id@) && e.is_query(StatusClass::NotFound),
        },
{
    match find_card(&store.cards, card_id) {
        Some(i) => {
            let c = store.cards[i].clone();
            proof {
                assert(store.cards@[i as int] == c);
            }
            Ok(c)
        },
        None => Err(RepoError::query("The card couldn't be found!", StatusClass::NotFound)),
    }
}

/// Fetches card rows, filtered by the owning claim when one is given, else
/// by the owning player when one is given, else unfiltered.
pub fn get_all_cards(store: &Store, claim_id: Option<&String>, player_id: Option<&String>) -> (res:
    Vec<Card>)
    ensures
        res@ == (match (claim_id, player_id) {
            (Some(c), _) => cards_of_claim(store.cards@, c@),
            (None, Some(p)) => cards_of_player(store.cards@, p@),
            (None, None) => store.cards@,
        }),
{
    match (claim_id, player_id) {
        (Some(c), _) => collect_cards_of_claim(&store.cards, c),
        (None, Some(p)) => collect_cards_of_player(&store.cards, p),
        (None, None) => clone_cards(&store.cards),
    }
}

/// The cards owned by the given claim, in table order.
fn collect_cards_of_claim(cards: &Vec<Card>, claim: &String) -> (res: Vec<Card>)
    ensures
        res@ == cards_of_claim(cards@, claim@),
{
    let mut out: Vec<Card> = Vec::new();
    let mut i: usize = 0;
    while i < cards.len()
        invariant
            i <= cards@.len(),
            out@ == cards_of_claim(cards@.subrange(0, i as int), claim@),
        decreases cards@.len() - i,
    {
        let keep = match &cards[i].claim_id {
            Some(x) => *x == *claim,
            None => false,
        };
        proof {
            assert(cards@.subrange(0, i + 1 as int) =~= cards@.subrange(0, i as int).push(
                cards@[i as int],
            ));
            lemma_filter_push(cards@.subrange(0, i as int), card_in_claim(claim@), cards@[i as int]);
            assert(card_in_claim(claim@)(cards@[i as int]) == keep);
        }
        if keep {
            out.push(cards[i].clone());
        }
        i = i + 1;
    }
    proof {
        assert(cards@.subrange(0, cards@.len() as int) =~= cards@);
    }
    out
}

/// The cards owned by the given player, in table order.
fn collect_cards_of_player(cards: &Vec<Card>, player: &String) -> (res: Vec<Card>)
    ensures
        res@ == cards_of_player(cards@, player@),
{
    let mut out: Vec<Card> = Vec::new();
    let mut i: usize = 0;
    while i < cards.len()
        invariant
            i <= cards@.len(),
            out@ == cards_of_player(cards@.subrange(0, i as int), player@),
        decreases cards@.len() - i,
    {
        let keep = match &cards[i].player_id {
            Some(x) => *x == *player,
            None => false,
        };
        proof {
            assert(cards@.subrange(0, i + 1 as int) =~= cards@.subrange(0, i as int).push(
                cards@[i as int],
            ));
            lemma_filter_push(
                cards@.subrange(0, i as int),
                card_of_player(player@),
                cards@[i as int],
            );
            assert(card_of_player(player@)(cards@[i as int]) == keep);
        }
        if keep {
            out.push(cards[i].clone());
        }
        i = i + 1;
    }
    proof {
        assert(cards@.subrange(0, cards@.len() as int) =~= cards@);
    }
    out
}

/// Reassigns a card's owner from the present fields of the payload.  Fails
/// with an internal error when no row carries the payload's identifier,
/// since the update statement then returns no row; nothing changes on
/// failure.
pub fn update_card(store: &mut Store, card_data: UpdateCardDTO) -> (res: Result<Card, RepoError>)
    requires
        old(store).wf(),
    ensures
        final(store).wf(),
        old(store).agrees_except_cards(*final(store)),
        match res {
            Ok(c) => {
                &&& has_card(old(store).cards@, card_data.id@)
                &&& final(store).cards@.len() == old(store).cards@.len()
                &&& forall|j: int|
                    0 <= j < old(store).cards@.len() && (#[trigger] old(store).cards@[j]).id@
                        != card_data.id@ ==> final(store).cards@[j] == old(store).cards@[j]
                &&& forall|j: int|
                    0 <= j < old(store).cards@.len() && (#[trigger] old(store).cards@[j]).id@
                        == card_data.id@ ==> final(store).cards@[j] == apply_card_update(
                        old(store).cards@[j],
                        card_data,
                    ) && c == final(store).cards@[j]
            },
            Err(e) => {
                &&& final(store).cards@ == old(store).cards@
                &&& !has_card(old(store).cards@, card_data.id@)
                &&& e.is_query(StatusClass::InternalServerError)
            },
        },
{
    match find_card(&store.cards, &card_data.id) {
        None => Err(
            RepoError::query_with_echo(
                "Failed to update the card in the database!",
                &card_data.id,
                StatusClass::InternalServerError,
            ),
        ),
        Some(i) => {
            let cur = &store.cards[i];
            let updated = if card_data.claim_id.is_some() {
                Card { id: cur.id.clone(), claim_id: clone_string_opt(&card_data.claim_id), player_id: None }
            } else if card_data.player_id.is_some() {
                Card { id: cur.id.clone(), claim_id: None, player_id: clone_string_opt(&card_data.player_id) }
            } else {
                cur.clone()
            };
            proof {
                assert(updated == apply_card_update(old(store).cards@[i as int], card_data));
            }
            let echo = updated.clone();
            store.cards.set(i, updated);
            proof {
                let newseq = store.cards@;
                assert forall|a: int, b: int| 0 <= a < b < newseq.len() implies card_key()(
                    newseq[a],
                ) != card_key()(newseq[b]) by {
                    assert(card_key()(old(store).cards@[a]) != card_key()(old(store).cards@[b]));
                }
                assert forall|j: int|
                    0 <= j < old(store).cards@.len() && (old(store).cards@[j]).id@
                        == card_data.id@ implies j == i as int by {
                    if j != i as int {
                        assert(card_key()(old(store).cards@[j]) != card_key()(
                            old(store).cards@[i as int],
                        ));
                    }
                }
            }
            Ok(echo)
        },
    }
}

/// Clones an optional string value.
fn clone_string_opt(o: &Option<String>) -> (res: Option<String>)
    ensures
        res == *o,
{
    match o {
        Some(s) => Some(s.clone()),
        None => None,
    }
}

/// Deletes the card row with the given identifier; absent rows delete to
/// nothing.
pub fn delete_card(store: &mut Store, card_id: &String) -> (res: Result<(), RepoError>)
    requires
        old(store).wf(),
    ensures
        final(store).wf(),
        old(store).agrees_except_cards(*final(store)),
        res is Ok,
        final(store).cards@ == old(store).cards@.filter(card_id_not(card_id@)),
{
    match find_card(&store.cards, card_id) {
        None => {
            proof {
                lemma_filter_all_true(old(store).cards@, card_id_not(card_id@));
            }
            Ok(())
        },
        Some(i) => {
            proof {
                lemma_remove_by_key(old(store).cards@, card_key(), i as int, card_id_not(card_id@));
                lemma_filter_unique_keys(old(store).cards@, card_id_not(card_id@), card_key());
                lemma_filter_elements(old(store).cards@, card_id_not(card_id@));
            }
            store.cards.remove(i);
            proof {
                let cur = store.cards@;
                assert forall|k: int|
                    0 <= k < cur.len() implies (#[trigger] cur[k]).owners_exclusive() by {
                    assert(old(store).cards@.contains(cur[k]));
                    let w = choose|w: int|
                        0 <= w < old(store).cards@.len() && old(store).cards@[w] == cur[k];
                    assert(old(store).cards@[w].owners_exclusive());
                }
            }
            Ok(())
        },
    }
}

} // verus!
