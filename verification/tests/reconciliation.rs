use lue_lue_game::chat_repository::create_chat;
use lue_lue_game::claim_repository::create_claim;
use lue_lue_game::chat_message_repository::save_message;
use lue_lue_game::errors::{RepoError, StatusClass};
use lue_lue_game::game_repository::{
    add_game, update_chat_of_game, update_claims_of_game, update_game, update_players_in_game,
};
use lue_lue_game::player_repository::add_player;
use lue_lue_game::store::Store;
use lue_lue_game::types::{
    Chat, ChatMessage, ChatRow, Claim, ClaimRow, Game, GameRow, Player, PlayerRow, UpdateGameDTO,
};

fn game(id: &str) -> Game {
    Game {
        row: GameRow {
            id: id.to_string(),
            started_at: 1000,
            round_number: 1,
            state: 0,
            which_player_turn: "p1".to_string(),
            card_to_play: 0,
        },
        players: Vec::new(),
        claims: Vec::new(),
        chat: Chat {
            row: ChatRow {
                id: String::new(),
                number_of_messages: 0,
                game_id: String::new(),
            },
            messages: Vec::new(),
        },
    }
}

fn player(id: &str, game_id: &str) -> Player {
    Player {
        row: PlayerRow {
            id: id.to_string(),
            name: format!("name of {id}"),
            game_id: game_id.to_string(),
            joined_at: 500,
            score: 0,
            last_time_update_requested: 0,
        },
        assigned_cards: Vec::new(),
    }
}

fn claim(id: &str, game_id: &str) -> Claim {
    Claim {
        row: ClaimRow {
            id: id.to_string(),
            created_by: "p1".to_string(),
            number_of_cards: 0,
            game_id: game_id.to_string(),
        },
        cards: Vec::new(),
    }
}

fn chat(id: &str, game_id: &str, count: u64, messages: Vec<ChatMessage>) -> Chat {
    Chat {
        row: ChatRow {
            id: id.to_string(),
            number_of_messages: count,
            game_id: game_id.to_string(),
        },
        messages,
    }
}

fn message(id: &str, chat_id: &str, sent_at: u64) -> ChatMessage {
    ChatMessage {
        id: id.to_string(),
        player_id: "p1".to_string(),
        content: format!("message {id}"),
        sent_at,
        chat_id: chat_id.to_string(),
    }
}

fn dto(game_id: &str) -> UpdateGameDTO {
    UpdateGameDTO {
        id: game_id.to_string(),
        state: None,
        round_number: None,
        card_to_play: None,
        which_player_turn: None,
        players: None,
        claims: None,
        chat: None,
    }
}

fn player_ids_of_game(store: &Store, game_id: &str) -> Vec<String> {
    store
        .players
        .iter()
        .filter(|p| p.game_id == game_id)
        .map(|p| p.id.clone())
        .collect()
}

#[test]
fn player_reconciliation_deletes_inserts_and_keeps_untouched() {
    let mut store = Store::new();
    add_game(&mut store, game("g1")).unwrap();
    add_player(&mut store, player("p1", "g1")).unwrap();
    add_player(&mut store, player("p2", "g1")).unwrap();
    add_player(&mut store, player("other", "g9")).unwrap();
    // Give p2 a score so "untouched" is observable.
    let p2_idx = store.players.iter().position(|p| p.id == "p2").unwrap();
    store.players[p2_idx].score = 42;

    let mut d = dto("g1");
    d.players = Some(vec![player("p2", "g1"), player("p4", "g1")]);
    let returned = update_players_in_game(&mut store, &d).unwrap();

    // p1 deleted, p2 kept with its fields unmodified, p4 inserted.
    let ids = player_ids_of_game(&store, "g1");
    assert_eq!(ids, vec!["p2".to_string(), "p4".to_string()]);
    let p2 = store.players.iter().find(|p| p.id == "p2").unwrap();
    assert_eq!(p2.score, 42);
    // The player of the other game is untouched.
    assert_eq!(player_ids_of_game(&store, "g9"), vec!["other".to_string()]);
    // The returned list is the reconciled one: survivors then newcomers.
    let returned_ids: Vec<&str> = returned.iter().map(|p| p.row.id.as_str()).collect();
    assert_eq!(returned_ids, vec!["p2", "p4"]);
    assert_eq!(returned[0].row.score, 42);
    assert_eq!(returned[1].row.score, 0);
}

#[test]
fn player_reconciliation_rejects_missing_and_empty_lists() {
    let mut store = Store::new();
    add_game(&mut store, game("g1")).unwrap();
    add_player(&mut store, player("p1", "g1")).unwrap();

    let d_none = dto("g1");
    let err = update_players_in_game(&mut store, &d_none).unwrap_err();
    match err {
        RepoError::Query(f) => assert_eq!(f.status, StatusClass::InternalServerError),
        RepoError::Process(_) => panic!("expected a query error"),
    }

    let mut d_empty = dto("g1");
    d_empty.players = Some(Vec::new());
    let err = update_players_in_game(&mut store, &d_empty).unwrap_err();
    match err {
        RepoError::Query(f) => assert_eq!(f.status, StatusClass::BadRequest),
        RepoError::Process(_) => panic!("expected a query error"),
    }
    assert_eq!(player_ids_of_game(&store, "g1"), vec!["p1".to_string()]);
}

#[test]
fn claim_reconciliation_empty_list_deletes_all_claims() {
    let mut store = Store::new();
    add_game(&mut store, game("g1")).unwrap();
    create_claim(&mut store, claim("cl1", "g1")).unwrap();
    create_claim(&mut store, claim("cl2", "g1")).unwrap();
    create_claim(&mut store, claim("cl3", "g2")).unwrap();

    let mut d = dto("g1");
    d.claims = Some(Vec::new());
    let returned = update_claims_of_game(&mut store, &d).unwrap();
    assert!(returned.is_empty());
    assert!(store.claims.iter().all(|c| c.game_id != "g1"));
    // The other game's claim survives.
    assert!(store.claims.iter().any(|c| c.id == "cl3"));
}

#[test]
fn claim_reconciliation_inserts_second_element_and_returns_all() {
    let mut store = Store::new();
    add_game(&mut store, game("g1")).unwrap();
    create_claim(&mut store, claim("existing", "g1")).unwrap();

    let mut d = dto("g1");
    d.claims = Some(vec![claim("ignored", "g1"), claim("inserted", "g1")]);
    let returned = update_claims_of_game(&mut store, &d).unwrap();

    // Exactly the element at index 1 was persisted.
    assert!(store.claims.iter().any(|c| c.id == "inserted"));
    assert!(!store.claims.iter().any(|c| c.id == "ignored"));
    // The returned list reflects all persisted claims of the game.
    let mut ids: Vec<&str> = returned.iter().map(|c| c.row.id.as_str()).collect();
    ids.sort();
    assert_eq!(ids, vec!["existing", "inserted"]);
}

#[test]
fn claim_reconciliation_single_element_list_is_a_process_error() {
    let mut store = Store::new();
    add_game(&mut store, game("g1")).unwrap();
    let claims_before = store.claims.len();
    let mut d = dto("g1");
    d.claims = Some(vec![claim("only", "g1")]);
    let err = update_claims_of_game(&mut store, &d).unwrap_err();
    assert!(matches!(err, RepoError::Process(_)));
    assert_eq!(store.claims.len(), claims_before);
}

#[test]
fn claim_reconciliation_missing_list_is_mandatory() {
    let mut store = Store::new();
    add_game(&mut store, game("g1")).unwrap();
    let d = dto("g1");
    let err = update_claims_of_game(&mut store, &d).unwrap_err();
    match err {
        RepoError::Query(f) => assert_eq!(f.status, StatusClass::InternalServerError),
        RepoError::Process(_) => panic!("expected a query error"),
    }
}

#[test]
fn chat_reconciliation_is_idempotent_on_current_set() {
    let mut store = Store::new();
    create_chat(&mut store, chat("c1", "g1", 0, Vec::new())).unwrap();
    save_message(&mut store, &message("m1", "c1", 10)).unwrap();
    save_message(&mut store, &message("m2", "c1", 20)).unwrap();
    lue_lue_game::chat_repository::update_number_of_messages_of_chat(
        &mut store,
        2,
        Some(&"c1".to_string()),
        None,
    )
    .unwrap();

    let messages_before: Vec<String> = store.messages.iter().map(|m| m.id.clone()).collect();
    let mut d = dto("g1");
    d.chat = Some(chat(
        "c1",
        "g1",
        2,
        vec![message("m1", "c1", 10), message("m2", "c1", 20)],
    ));
    update_chat_of_game(&mut store, &d).unwrap();
    let messages_after: Vec<String> = store.messages.iter().map(|m| m.id.clone()).collect();
    assert_eq!(messages_before, messages_after);
}

#[test]
fn chat_reconciliation_diffs_by_id() {
    // Messages [m1, m2] reconciled against [m2, m3]: m1 deleted, m3
    // inserted, m2 untouched, counter stays 2.
    let mut store = Store::new();
    create_chat(&mut store, chat("c1", "g1", 2, Vec::new())).unwrap();
    save_message(&mut store, &message("m1", "c1", 10)).unwrap();
    save_message(&mut store, &message("m2", "c1", 20)).unwrap();

    let mut d = dto("g1");
    d.chat = Some(chat(
        "c1",
        "g1",
        2,
        vec![message("m2", "c1", 20), message("m3", "c1", 30)],
    ));
    let returned = update_chat_of_game(&mut store, &d).unwrap();

    let ids: Vec<&str> = store
        .messages
        .iter()
        .filter(|m| m.chat_id == "c1")
        .map(|m| m.id.as_str())
        .collect();
    assert_eq!(ids, vec!["m2", "m3"]);
    assert_eq!(
        store.chats.iter().find(|c| c.id == "c1").unwrap().number_of_messages,
        2
    );
    // The desired chat comes back as given, not a re-read.
    assert_eq!(returned.row.id, "c1");
    assert_eq!(returned.messages.len(), 2);
}

#[test]
fn chat_reconciliation_zero_count_clears_chat() {
    let mut store = Store::new();
    create_chat(&mut store, chat("c1", "g1", 2, Vec::new())).unwrap();
    save_message(&mut store, &message("m1", "c1", 10)).unwrap();
    save_message(&mut store, &message("m2", "c1", 20)).unwrap();
    save_message(&mut store, &message("other", "c9", 5)).unwrap();

    let mut d = dto("g1");
    d.chat = Some(chat("c1", "g1", 0, Vec::new()));
    update_chat_of_game(&mut store, &d).unwrap();
    assert!(store.messages.iter().all(|m| m.chat_id != "c1"));
    assert!(store.messages.iter().any(|m| m.id == "other"));
    assert_eq!(
        store.chats.iter().find(|c| c.id == "c1").unwrap().number_of_messages,
        0
    );
}

#[test]
fn end_to_end_player_update_inserts_then_deletes() {
    let mut store = Store::new();
    add_game(&mut store, game("g1")).unwrap();
    add_player(&mut store, player("p1", "g1")).unwrap();
    create_chat(&mut store, chat("c1", "g1", 0, Vec::new())).unwrap();

    // First update: desired players [p1, p2] — p1 retained, p2 inserted.
    let mut d = dto("g1");
    d.round_number = Some(2);
    d.players = Some(vec![player("p1", "g1"), player("p2", "g1")]);
    d.claims = Some(Vec::new());
    d.chat = Some(chat("c1", "g1", 0, Vec::new()));
    let g = update_game(&mut store, d).unwrap();
    let mut returned: Vec<&str> = g.players.iter().map(|p| p.row.id.as_str()).collect();
    returned.sort();
    assert_eq!(returned, vec!["p1", "p2"]);
    assert_eq!(g.row.round_number, 2);
    assert_eq!(player_ids_of_game(&store, "g1"), vec!["p1", "p2"]);

    // Second update: desired players [p2] — p1 deleted; the returned list
    // is the reconciled one.
    let mut d2 = dto("g1");
    d2.players = Some(vec![player("p2", "g1")]);
    d2.claims = Some(Vec::new());
    d2.chat = Some(chat("c1", "g1", 0, Vec::new()));
    let g2 = update_game(&mut store, d2).unwrap();
    let returned2: Vec<&str> = g2.players.iter().map(|p| p.row.id.as_str()).collect();
    assert_eq!(returned2, vec!["p2"]);
    assert_eq!(player_ids_of_game(&store, "g1"), vec!["p2"]);
}

#[test]
fn update_game_requires_a_stored_game() {
    let mut store = Store::new();
    let mut d = dto("missing");
    d.players = Some(vec![player("p1", "missing")]);
    d.claims = Some(Vec::new());
    d.chat = Some(chat("c1", "missing", 0, Vec::new()));
    let err = update_game(&mut store, d).unwrap_err();
    match err {
        RepoError::Query(f) => assert_eq!(f.status, StatusClass::InternalServerError),
        RepoError::Process(_) => panic!("expected a query error"),
    }
    assert!(store.games.is_empty());
}
