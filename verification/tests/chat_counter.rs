use lue_lue_game::chat_repository::{
    add_new_message_to_chat, create_chat, get_number_of_messages_of_chat, remove_message_from_chat,
    update_number_of_messages_of_chat,
};
use lue_lue_game::chat_message_repository::get_all_messages_in_chat;
use lue_lue_game::errors::{RepoError, StatusClass};
use lue_lue_game::store::Store;
use lue_lue_game::types::{Chat, ChatMessage, ChatRow};

fn chat(id: &str, game_id: &str, count: u64) -> Chat {
    Chat {
        row: ChatRow {
            id: id.to_string(),
            number_of_messages: count,
            game_id: game_id.to_string(),
        },
        messages: Vec::new(),
    }
}

fn message(id: &str, chat_id: &str, sent_at: u64) -> ChatMessage {
    ChatMessage {
        id: id.to_string(),
        player_id: "p1".to_string(),
        content: format!("message {id}"),
        sent_at,
        chat_id: chat_id.to_string(),
    }
}

fn rows_of_chat(store: &Store, chat_id: &str) -> usize {
    store
        .messages
        .iter()
        .filter(|m| m.chat_id == chat_id)
        .count()
}

fn counter_of(store: &Store, chat_id: &str) -> u64 {
    store
        .chats
        .iter()
        .find(|c| c.id == chat_id)
        .expect("chat row")
        .number_of_messages
}

#[test]
fn counter_tracks_rows_across_adds_and_removes() {
    let mut store = Store::new();
    create_chat(&mut store, chat("c1", "g1", 0)).unwrap();
    assert_eq!(counter_of(&store, "c1"), 0);
    assert_eq!(rows_of_chat(&store, "c1"), 0);

    add_new_message_to_chat(&mut store, &"c1".to_string(), message("m1", "c1", 10)).unwrap();
    assert_eq!(counter_of(&store, "c1"), 1);
    assert_eq!(rows_of_chat(&store, "c1"), 1);

    add_new_message_to_chat(&mut store, &"c1".to_string(), message("m2", "c1", 20)).unwrap();
    add_new_message_to_chat(&mut store, &"c1".to_string(), message("m3", "c1", 30)).unwrap();
    assert_eq!(counter_of(&store, "c1"), 3);
    assert_eq!(rows_of_chat(&store, "c1"), 3);

    remove_message_from_chat(&mut store, &"c1".to_string(), &"m2".to_string()).unwrap();
    assert_eq!(counter_of(&store, "c1"), 2);
    assert_eq!(rows_of_chat(&store, "c1"), 2);

    remove_message_from_chat(&mut store, &"c1".to_string(), &"m1".to_string()).unwrap();
    remove_message_from_chat(&mut store, &"c1".to_string(), &"m3".to_string()).unwrap();
    assert_eq!(counter_of(&store, "c1"), 0);
    assert_eq!(rows_of_chat(&store, "c1"), 0);
}

#[test]
fn remove_on_empty_chat_fails_with_consistency_error_and_no_mutation() {
    let mut store = Store::new();
    create_chat(&mut store, chat("c1", "g1", 0)).unwrap();
    add_new_message_to_chat(&mut store, &"c1".to_string(), message("m1", "c1", 10)).unwrap();
    remove_message_from_chat(&mut store, &"c1".to_string(), &"m1".to_string()).unwrap();

    let chats_before = store.chats.len();
    let messages_before = store.messages.len();
    let err = remove_message_from_chat(&mut store, &"c1".to_string(), &"m1".to_string())
        .unwrap_err();
    assert!(matches!(err, RepoError::Process(_)));
    assert_eq!(counter_of(&store, "c1"), 0);
    assert_eq!(store.chats.len(), chats_before);
    assert_eq!(store.messages.len(), messages_before);
}

#[test]
fn add_to_missing_chat_fails_not_found() {
    let mut store = Store::new();
    let err = add_new_message_to_chat(&mut store, &"nope".to_string(), message("m1", "nope", 1))
        .unwrap_err();
    match err {
        RepoError::Query(f) => assert_eq!(f.status, StatusClass::NotFound),
        RepoError::Process(_) => panic!("expected a query error"),
    }
    assert_eq!(store.messages.len(), 0);
}

#[test]
fn duplicate_message_id_fails_but_counter_already_advanced() {
    let mut store = Store::new();
    create_chat(&mut store, chat("c1", "g1", 0)).unwrap();
    add_new_message_to_chat(&mut store, &"c1".to_string(), message("m1", "c1", 10)).unwrap();
    let err = add_new_message_to_chat(&mut store, &"c1".to_string(), message("m1", "c1", 20))
        .unwrap_err();
    match err {
        RepoError::Query(f) => assert_eq!(f.status, StatusClass::InternalServerError),
        RepoError::Process(_) => panic!("expected a query error"),
    }
    // The counter write committed before the insert failed: no rollback.
    assert_eq!(counter_of(&store, "c1"), 2);
    assert_eq!(rows_of_chat(&store, "c1"), 1);
}

#[test]
fn counter_read_prefers_game_id() {
    let mut store = Store::new();
    create_chat(&mut store, chat("c1", "g1", 0)).unwrap();
    create_chat(&mut store, chat("c2", "g2", 0)).unwrap();
    add_new_message_to_chat(&mut store, &"c2".to_string(), message("m1", "c2", 5)).unwrap();
    // Both selectors given: the game selector wins, so this reads c2's
    // counter even though the chat selector names c1.
    let n = get_number_of_messages_of_chat(
        &store,
        Some(&"g2".to_string()),
        Some(&"c1".to_string()),
    )
    .unwrap();
    assert_eq!(n, 1);
}

#[test]
fn counter_read_without_selector_is_a_process_error() {
    let store = Store::new();
    let err = get_number_of_messages_of_chat(&store, None, None).unwrap_err();
    assert!(matches!(err, RepoError::Process(_)));
}

#[test]
fn counter_write_echoes_written_value_and_misses_are_process_errors() {
    let mut store = Store::new();
    create_chat(&mut store, chat("c1", "g1", 7)).unwrap();
    let n = update_number_of_messages_of_chat(&mut store, 4, Some(&"c1".to_string()), None)
        .unwrap();
    assert_eq!(n, 4);
    assert_eq!(counter_of(&store, "c1"), 4);

    let err = update_number_of_messages_of_chat(&mut store, 9, Some(&"zz".to_string()), None)
        .unwrap_err();
    assert!(matches!(err, RepoError::Process(_)));
    let err2 = update_number_of_messages_of_chat(&mut store, 9, None, None).unwrap_err();
    assert!(matches!(err2, RepoError::Process(_)));
}

#[test]
fn messages_come_back_ordered_by_creation_time() {
    let mut store = Store::new();
    create_chat(&mut store, chat("c1", "g1", 0)).unwrap();
    add_new_message_to_chat(&mut store, &"c1".to_string(), message("late", "c1", 300)).unwrap();
    add_new_message_to_chat(&mut store, &"c1".to_string(), message("early", "c1", 100)).unwrap();
    add_new_message_to_chat(&mut store, &"c1".to_string(), message("middle", "c1", 200)).unwrap();
    let msgs = get_all_messages_in_chat(&store, &"c1".to_string()).unwrap();
    let ids: Vec<&str> = msgs.iter().map(|m| m.id.as_str()).collect();
    assert_eq!(ids, vec!["early", "middle", "late"]);
}
