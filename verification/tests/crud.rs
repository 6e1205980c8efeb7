use lue_lue_game::card_repository::{add_card, delete_card, get_all_cards, get_card, update_card};
use lue_lue_game::chat_repository::{create_chat, delete_chat, get_chat};
use lue_lue_game::claim_repository::{
    create_claim, delete_all_claims_of_game, delete_claim, get_all_claims, get_claim_by_id,
};
use lue_lue_game::errors::{RepoError, StatusClass};
use lue_lue_game::game_repository::{add_game, delete_game, get_all_games, get_game_by_id};
use lue_lue_game::player_repository::{
    add_player, delete_player, get_all_players, get_player, update_player,
};
use lue_lue_game::store::Store;
use lue_lue_game::types::{
    Card, Chat, ChatMessage, ChatRow, Claim, ClaimRow, Game, GameRow, Player, PlayerRow,
    UpdateCardDTO, UpdatePlayerDTO,
};

fn game(id: &str) -> Game {
    Game {
        row: GameRow {
            id: id.to_string(),
            started_at: 1000,
            round_number: 3,
            state: 2,
            which_player_turn: "p1".to_string(),
            card_to_play: 5,
        },
        players: Vec::new(),
        claims: Vec::new(),
        chat: Chat {
            row: ChatRow {
                id: String::new(),
                number_of_messages: 0,
                game_id: String::new(),
            },
            messages: Vec::new(),
        },
    }
}

fn player(id: &str, game_id: &str) -> Player {
    Player {
        row: PlayerRow {
            id: id.to_string(),
            name: format!("name of {id}"),
            game_id: game_id.to_string(),
            joined_at: 500,
            score: 9,
            last_time_update_requested: 7,
        },
        assigned_cards: Vec::new(),
    }
}

fn card(id: &str, claim_id: Option<&str>, player_id: Option<&str>) -> Card {
    Card {
        id: id.to_string(),
        claim_id: claim_id.map(|s| s.to_string()),
        player_id: player_id.map(|s| s.to_string()),
    }
}

fn chat(id: &str, game_id: &str, count: u64) -> Chat {
    Chat {
        row: ChatRow {
            id: id.to_string(),
            number_of_messages: count,
            game_id: game_id.to_string(),
        },
        messages: Vec::new(),
    }
}

fn claim(id: &str, game_id: &str) -> Claim {
    Claim {
        row: ClaimRow {
            id: id.to_string(),
            created_by: "p1".to_string(),
            number_of_cards: 1,
            game_id: game_id.to_string(),
        },
        cards: Vec::new(),
    }
}

#[test]
fn add_player_stores_defaults_and_duplicates_fail() {
    let mut store = Store::new();
    let stored = add_player(&mut store, player("p1", "g1")).unwrap();
    // Score and last update time come from the column defaults, not the
    // payload.
    assert_eq!(stored.row.score, 0);
    assert_eq!(stored.row.last_time_update_requested, 0);
    assert_eq!(stored.row.name, "name of p1");
    let err = add_player(&mut store, player("p1", "g2")).unwrap_err();
    match err {
        RepoError::Query(f) => {
            assert_eq!(f.status, StatusClass::InternalServerError);
            assert_eq!(f.echo.as_deref(), Some("p1"));
        },
        RepoError::Process(_) => panic!("expected a query error"),
    }
}

#[test]
fn update_player_changes_only_present_fields() {
    let mut store = Store::new();
    add_player(&mut store, player("p1", "g1")).unwrap();
    let updated = update_player(
        &mut store,
        UpdatePlayerDTO {
            id: "p1".to_string(),
            name: None,
            score: Some(55),
            last_time_update_requested: None,
        },
    )
    .unwrap();
    assert_eq!(updated.row.score, 55);
    assert_eq!(updated.row.name, "name of p1");
    assert_eq!(updated.row.last_time_update_requested, 0);

    let err = update_player(
        &mut store,
        UpdatePlayerDTO {
            id: "missing".to_string(),
            name: None,
            score: Some(1),
            last_time_update_requested: None,
        },
    )
    .unwrap_err();
    match err {
        RepoError::Query(f) => assert_eq!(f.status, StatusClass::InternalServerError),
        RepoError::Process(_) => panic!("expected a query error"),
    }
}

#[test]
fn get_player_not_found_and_delete_is_idempotent() {
    let mut store = Store::new();
    add_player(&mut store, player("p1", "g1")).unwrap();
    let err = get_player(&store, &"missing".to_string()).unwrap_err();
    match err {
        RepoError::Query(f) => assert_eq!(f.status, StatusClass::NotFound),
        RepoError::Process(_) => panic!("expected a query error"),
    }
    delete_player(&mut store, &"p1".to_string()).unwrap();
    delete_player(&mut store, &"p1".to_string()).unwrap();
    assert!(store.players.is_empty());
}

#[test]
fn get_all_players_hydrates_cards_and_empty_is_not_found() {
    let mut store = Store::new();
    add_player(&mut store, player("p1", "g1")).unwrap();
    add_player(&mut store, player("p2", "g1")).unwrap();
    add_card(&mut store, card("k1", None, Some("p1"))).unwrap();
    add_card(&mut store, card("k2", None, Some("p1"))).unwrap();
    add_card(&mut store, card("k3", None, Some("p2"))).unwrap();

    let players = get_all_players(&store, Some(&"g1".to_string())).unwrap();
    assert_eq!(players.len(), 2);
    assert_eq!(players[0].row.id, "p1");
    assert_eq!(players[0].assigned_cards.len(), 2);
    assert_eq!(players[1].assigned_cards.len(), 1);

    let err = get_all_players(&store, Some(&"empty-game".to_string())).unwrap_err();
    match err {
        RepoError::Query(f) => assert_eq!(f.status, StatusClass::NotFound),
        RepoError::Process(_) => panic!("expected a query error"),
    }
}

#[test]
fn card_ownership_is_exclusive_and_reassignable() {
    let mut store = Store::new();
    add_card(&mut store, card("k1", None, Some("p1"))).unwrap();
    // Handing the card to a claim releases the player.
    let dto = UpdateCardDTO::new("k1".to_string(), None, Some("cl1".to_string())).unwrap();
    let updated = update_card(&mut store, dto).unwrap();
    assert_eq!(updated.claim_id.as_deref(), Some("cl1"));
    assert_eq!(updated.player_id, None);

    // A payload naming both owners is refused outright.
    let err = UpdateCardDTO::new(
        "k1".to_string(),
        Some("p1".to_string()),
        Some("cl1".to_string()),
    )
    .unwrap_err();
    match err {
        RepoError::Query(f) => assert_eq!(f.status, StatusClass::BadRequest),
        RepoError::Process(_) => panic!("expected a query error"),
    }

    // So is inserting a card that names both owners.
    let err = add_card(&mut store, card("k2", Some("cl1"), Some("p1"))).unwrap_err();
    match err {
        RepoError::Query(f) => assert_eq!(f.status, StatusClass::BadRequest),
        RepoError::Process(_) => panic!("expected a query error"),
    }

    let fetched = get_card(&store, &"k1".to_string()).unwrap();
    assert_eq!(fetched.id, "k1");
    delete_card(&mut store, &"k1".to_string()).unwrap();
    assert!(store.cards.is_empty());
}

#[test]
fn get_all_cards_filters_by_owner_with_claim_precedence() {
    let mut store = Store::new();
    add_card(&mut store, card("k1", Some("cl1"), None)).unwrap();
    add_card(&mut store, card("k2", None, Some("p1"))).unwrap();
    add_card(&mut store, card("k3", None, None)).unwrap();

    let by_claim = get_all_cards(&store, Some(&"cl1".to_string()), Some(&"p1".to_string()));
    assert_eq!(by_claim.len(), 1);
    assert_eq!(by_claim[0].id, "k1");
    let by_player = get_all_cards(&store, None, Some(&"p1".to_string()));
    assert_eq!(by_player.len(), 1);
    assert_eq!(by_player[0].id, "k2");
    let all = get_all_cards(&store, None, None);
    assert_eq!(all.len(), 3);
}

#[test]
fn create_claim_hands_listed_cards_to_the_claim() {
    let mut store = Store::new();
    add_card(&mut store, card("k1", None, Some("p1"))).unwrap();
    add_card(&mut store, card("k2", None, Some("p2"))).unwrap();
    let mut c = claim("cl1", "g1");
    c.cards = vec![card("k1", None, Some("p1"))];
    create_claim(&mut store, c).unwrap();

    let k1 = store.cards.iter().find(|k| k.id == "k1").unwrap();
    assert_eq!(k1.claim_id.as_deref(), Some("cl1"));
    assert_eq!(k1.player_id, None);
    let k2 = store.cards.iter().find(|k| k.id == "k2").unwrap();
    assert_eq!(k2.player_id.as_deref(), Some("p2"));

    let hydrated = get_all_claims(&store, Some(&"g1".to_string()), None).unwrap();
    assert_eq!(hydrated.len(), 1);
    assert_eq!(hydrated[0].cards.len(), 1);
    assert_eq!(hydrated[0].cards[0].id, "k1");
}

#[test]
fn claim_lookup_and_deletion() {
    let mut store = Store::new();
    create_claim(&mut store, claim("cl1", "g1")).unwrap();
    create_claim(&mut store, claim("cl2", "g1")).unwrap();
    let fetched = get_claim_by_id(&store, &"cl1".to_string()).unwrap();
    assert_eq!(fetched.row.id, "cl1");
    let err = get_claim_by_id(&store, &"zz".to_string()).unwrap_err();
    match err {
        RepoError::Query(f) => assert_eq!(f.status, StatusClass::NotFound),
        RepoError::Process(_) => panic!("expected a query error"),
    }
    delete_claim(&mut store, &"cl1".to_string()).unwrap();
    assert_eq!(store.claims.len(), 1);
    delete_all_claims_of_game(&mut store, &"g1".to_string()).unwrap();
    assert!(store.claims.is_empty());
}

#[test]
fn get_chat_prefers_game_id_and_delete_chat_needs_a_selector() {
    let mut store = Store::new();
    create_chat(&mut store, chat("c1", "g1", 0)).unwrap();
    create_chat(&mut store, chat("c2", "g2", 0)).unwrap();
    let fetched = get_chat(&store, Some(&"c1".to_string()), Some(&"g2".to_string())).unwrap();
    assert_eq!(fetched.row.id, "c2");

    let err = delete_chat(&mut store, None, None).unwrap_err();
    match err {
        RepoError::Query(f) => assert_eq!(f.status, StatusClass::BadRequest),
        RepoError::Process(_) => panic!("expected a query error"),
    }
    delete_chat(&mut store, None, Some(&"g2".to_string())).unwrap();
    assert_eq!(store.chats.len(), 1);
    delete_chat(&mut store, Some(&"c1".to_string()), None).unwrap();
    assert!(store.chats.is_empty());
}

#[test]
fn game_read_assembles_the_aggregate() {
    let mut store = Store::new();
    add_game(&mut store, game("g1")).unwrap();
    add_player(&mut store, player("p1", "g1")).unwrap();
    create_chat(&mut store, chat("c1", "g1", 0)).unwrap();
    create_claim(&mut store, claim("cl1", "g1")).unwrap();
    lue_lue_game::chat_repository::add_new_message_to_chat(
        &mut store,
        &"c1".to_string(),
        ChatMessage {
            id: "m1".to_string(),
            player_id: "p1".to_string(),
            content: "hello".to_string(),
            sent_at: 11,
            chat_id: "c1".to_string(),
        },
    )
    .unwrap();

    let g = get_game_by_id(&store, &"g1".to_string()).unwrap();
    assert_eq!(g.row.id, "g1");
    assert_eq!(g.row.round_number, 3);
    assert_eq!(g.players.len(), 1);
    assert_eq!(g.claims.len(), 1);
    assert_eq!(g.chat.row.id, "c1");
    assert_eq!(g.chat.messages.len(), 1);

    let all = get_all_games(&store).unwrap();
    assert_eq!(all.len(), 1);
    assert_eq!(all[0].row.id, "g1");
}

#[test]
fn game_read_errors() {
    let mut store = Store::new();
    let err = get_all_games(&store).unwrap_err();
    match err {
        RepoError::Query(f) => assert_eq!(f.status, StatusClass::NotFound),
        RepoError::Process(_) => panic!("expected a query error"),
    }
    add_game(&mut store, game("g1")).unwrap();
    // A stored game without players or chat still fails the aggregate read.
    let err = get_game_by_id(&store, &"g1".to_string()).unwrap_err();
    match err {
        RepoError::Query(f) => assert_eq!(f.status, StatusClass::NotFound),
        RepoError::Process(_) => panic!("expected a query error"),
    }
    let err = get_game_by_id(&store, &"missing".to_string()).unwrap_err();
    match err {
        RepoError::Query(f) => assert_eq!(f.status, StatusClass::NotFound),
        RepoError::Process(_) => panic!("expected a query error"),
    }
    delete_game(&mut store, &"g1".to_string()).unwrap();
    assert!(store.games.is_empty());
    add_game(&mut store, game("g2")).unwrap();
    let err = add_game(&mut store, game("g2")).unwrap_err();
    match err {
        RepoError::Query(f) => assert_eq!(f.status, StatusClass::InternalServerError),
        RepoError::Process(_) => panic!("expected a query error"),
    }
}
