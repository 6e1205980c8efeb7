//! CRUD operations for chat aggregates, and the message-count protocol.
//!
//! A chat row carries `number_of_messages`, a denormalized counter that must
//! stay equal to the true count of the chat's message rows.  Both mutating
//! paths write the counter first and touch the message rows second, so the
//! counter decides whether the data change may happen: an addition
//! increments it before inserting the row, a removal refuses outright when
//! the counter is already zero and decrements it before deleting the row.
//! The steps commit independently, so a failure after the counter write
//! leaves the counter change in place.

use vstd::prelude::*;
use crate::chat_message_repository::{
    delete_message_by_id, get_all_messages_in_chat, save_message, sorted_by_sent_at,
};
use crate::errors::{RepoError, StatusClass};
use crate::store::{
    Store, find_chat, find_chat_of_game, has_chat, has_chat_of_game, has_msg, chats_of_game,
    chats_with_id, chat_has_id, chat_in_game, chat_not_in_game, chat_id_not, chat_key, msgs_of_chat,
    msg_id_not, lemma_filter_push, lemma_filter_all_true, lemma_remove_by_key,
    lemma_filter_unique_keys, lemma_first_match,
};
use crate::types::{Chat, ChatMessage, ChatRow};

verus! {

/// A chat row with its message counter replaced.
pub open spec fn with_count(c: ChatRow, n: u64) -> ChatRow {
    ChatRow { id: c.id, number_of_messages: n, game_id: c.game_id }
}

/// The chat table after a counter write selecting by chat identifier:
/// every row carrying `id` holds counter `n`, the rest are untouched.
pub open spec fn counts_set_by_id(pre: Seq<ChatRow>, post: Seq<ChatRow>, id: Seq<char>, n: u64) -> bool {
    &&& post.len() == pre.len()
    &&& forall|j: int|
        0 <= j < pre.len() && (#[trigger] pre[j]).id@ != id ==> post[j] == pre[j]
    &&& forall|j: int|
        0 <= j < pre.len() && (#[trigger] pre[j]).id@ == id ==> post[j] == with_count(pre[j], n)
}

/// The chat table after a counter write selecting by game identifier.
pub open spec fn counts_set_by_game(pre: Seq<ChatRow>, post: Seq<ChatRow>, game: Seq<char>, n: u64) -> bool {
    &&& post.len() == pre.len()
    &&& forall|j: int|
        0 <= j < pre.len() && (#[trigger] pre[j]).game_id@ != game ==> post[j] == pre[j]
    &&& forall|j: int|
        0 <= j < pre.len() && (#[trigger] pre[j]).game_id@ == game ==> post[j] == with_count(
            pre[j],
            n,
        )
}

/// Writes counter `n` into every chat row carrying identifier `id`.
fn set_count_by_chat_id(chats: &mut Vec<ChatRow>, id: &String, n: u64) -> (matched: bool)
    ensures
        counts_set_by_id(old(chats)@, final(chats)@, id@, n),
        matched == has_chat(old(chats)@, id@),
{
    let mut i: usize = 0;
    let mut matched: bool = false;
    let n_rows = chats.len();
    while i < n_rows
        invariant
            n_rows == chats@.len(),
            i <= n_rows,
            chats@.len() == old(chats)@.len(),
            forall|j: int| i <= j < chats@.len() ==> chats@[j] == old(chats)@[j],
            forall|j: int|
                0 <= j < i && (#[trigger] old(chats)@[j]).id@ != id@ ==> chats@[j] == old(chats)@[j],
            forall|j: int|
                0 <= j < i && (#[trigger] old(chats)@[j]).id@ == id@ ==> chats@[j] == with_count(
                    old(chats)@[j],
                    n,
                ),
            matched == exists|j: int| 0 <= j < i && (#[trigger] old(chats)@[j]).id@ == id@,
        decreases n_rows - i,
    {
        if chats[i].id == *id {
            let row = ChatRow {
                id: chats[i].id.clone(),
                number_of_messages: n,
                game_id: chats[i].game_id.clone(),
            };
            chats.set(i, row);
            matched = true;
            proof {
                assert(old(chats)@[i as int].id@ == id@);
            }
        }
        i = i + 1;
    }
    matched
}

/// Writes counter `n` into every chat row belonging to the game `game_id`.
fn set_count_by_game_id(chats: &mut Vec<ChatRow>, game_id: &String, n: u64) -> (matched: bool)
    ensures
        counts_set_by_game(old(chats)@, final(chats)@, game_id@, n),
        matched == has_chat_of_game(old(chats)@, game_id@),
{
    let mut i: usize = 0;
    let mut matched: bool = false;
    let n_rows = chats.len();
    while i < n_rows
        invariant
            n_rows == chats@.len(),
            i <= n_rows,
            chats@.len() == old(chats)@.len(),
            forall|j: int| i <= j < chats@.len() ==> chats@[j] == old(chats)@[j],
            forall|j: int|
                0 <= j < i && (#[trigger] old(chats)@[j]).game_id@ != game_id@ ==> chats@[j] == old(chats)@[j],
            forall|j: int|
                0 <= j < i && (#[trigger] old(chats)@[j]).game_id@ == game_id@ ==> chats@[j]
                    == with_count(old(chats)@[j], n),
            matched == exists|j: int| 0 <= j < i && (#[trigger] old(chats)@[j]).game_id@ == game_id@,
        decreases n_rows - i,
    {
        if chats[i].game_id == *game_id {
            let row = ChatRow {
                id: chats[i].id.clone(),
                number_of_messages: n,
                game_id: chats[i].game_id.clone(),
            };
            chats.set(i, row);
            matched = true;
            proof {
                assert(old(chats)@[i as int].game_id@ == game_id@);
            }
        }
        i = i + 1;
    }
    matched
}

/// A counter write keeps chat identifiers, so it keeps the table's keys
/// distinct.
proof fn lemma_counts_keep_wf(pre: Seq<ChatRow>, post: Seq<ChatRow>)
    requires
        crate::store::unique_keys(pre, chat_key()),
        post.len() == pre.len(),
        forall|j: int| 0 <= j < pre.len() ==> (#[trigger] post[j]).id@ == pre[j].id@,
    ensures
        crate::store::unique_keys(post, chat_key()),
{
    assert forall|i: int, j: int| 0 <= i < j < post.len() implies chat_key()(post[i]) != chat_key()(
        post[j],
    ) by {
        assert(chat_key()(pre[i]) != chat_key()(pre[j]));
    }
}

/// Creates a chat row from the aggregate's scalar fields, counter included.
/// Fails with an internal error, echoing the identifier, when the
/// identifier is already taken; nothing changes then.  On success the
/// stored row comes back with no hydrated messages.
pub fn create_chat(store: &mut Store, chat: Chat) -> (res: Result<Chat, RepoError>)
    requires
        old(store).wf(),
    ensures
        final(store).wf(),
        old(store).agrees_except_chats(*final(store)),
        match res {
            Ok(c) => {
                &&& !has_chat(old(store).chats@, chat.row.id@)
                &&& final(store).chats@ == old(store).chats@.push(chat.row)
                &&& c.row == chat.row
                &&& c.messages@.len() == 0
            },
            Err(e) => {
                &&& final(store).chats@ == old(store).chats@
                &&& has_chat(old(store).chats@, chat.row.id@)
                &&& e.is_query(StatusClass::InternalServerError)
            },
        },
{
    match find_chat(&store.chats, &chat.row.id) {
        Some(_) => Err(
            RepoError::query_with_echo(
                "Attempt to save the chat object failed!",
                &chat.row.id,
                StatusClass::InternalServerError,
            ),
        ),
        None => {
            let row = chat.row.clone();
            let echo = chat.row.clone();
            proof {
                let pushed = old(store).chats@.push(row);
                assert forall|i: int, j: int| 0 <= i < j < pushed.len() implies chat_key()(
                    pushed[i],
                ) != chat_key()(pushed[j]) by {
                    if j < old(store).chats@.len() {
                        assert(chat_key()(old(store).chats@[i]) != chat_key()(
                            old(store).chats@[j],
                        ));
                    }
                }
            }
            store.chats.push(row);
            Ok(Chat { row: echo, messages: Vec::new() })
        },
    }
}

/// Deletes chat rows: those of the given game when a game identifier comes,
/// else the row with the given chat identifier, preferring the game.
/// Fails as a bad request when neither identifier is given; nothing changes
/// then.
pub fn delete_chat(store: &mut Store, chat_id: Option<&String>, game_id: Option<&String>) -> (res:
    Result<(), RepoError>)
    requires
        old(store).wf(),
    ensures
        final(store).wf(),
        old(store).agrees_except_chats(*final(store)),
        match (game_id, chat_id) {
            (Some(g), _) => res is Ok && final(store).chats@ == old(store).chats@.filter(
                chat_not_in_game(g@),
            ),
            (None, Some(c)) => res is Ok && final(store).chats@ == old(store).chats@.filter(
                chat_id_not(c@),
            ),
            (None, None) => final(store).chats@ == old(store).chats@ && (res matches Err(e)
                && e.is_query(StatusClass::BadRequest)),
        },
{
    match (game_id, chat_id) {
        (Some(g), _) => {
            let mut out: Vec<ChatRow> = Vec::new();
            let mut i: usize = 0;
            let n_rows = store.chats.len();
            while i < n_rows
                invariant
                    n_rows == store.chats@.len(),
                    i <= n_rows,
                    store.chats@ == old(store).chats@,
                    out@ == old(store).chats@.subrange(0, i as int).filter(chat_not_in_game(g@)),
                decreases n_rows - i,
            {
                let keep = store.chats[i].game_id != *g;
                proof {
                    let pre = old(store).chats@;
                    assert(pre.subrange(0, i + 1 as int) =~= pre.subrange(0, i as int).push(
                        pre[i as int],
                    ));
                    lemma_filter_push(pre.subrange(0, i as int), chat_not_in_game(g@), pre[i as int]);
                    assert(chat_not_in_game(g@)(pre[i as int]) == keep);
                }
                if keep {
                    let row = store.chats[i].clone();
                    out.push(row);
                }
                i = i + 1;
            }
            proof {
                assert(old(store).chats@.subrange(0, old(store).chats@.len() as int) =~= old(store).chats@);
                lemma_filter_unique_keys(old(store).chats@, chat_not_in_game(g@), chat_key());
            }
            store.chats = out;
            Ok(())
        },
        (None, Some(c)) => {
            match find_chat(&store.chats, c) {
                None => {
                    proof {
                        lemma_filter_all_true(old(store).chats@, chat_id_not(c@));
                    }
                    Ok(())
                },
                Some(i) => {
                    proof {
                        lemma_remove_by_key(old(store).chats@, chat_key(), i as int, chat_id_not(c@));
                        lemma_filter_unique_keys(old(store).chats@, chat_id_not(c@), chat_key());
                    }
                    store.chats.remove(i);
                    Ok(())
                },
            }
        },
        (None, None) => Err(
            RepoError::query(
                "Pass either the chat or the game identifier to delete a chat by!",
                StatusClass::BadRequest,
            ),
        ),
    }
}

/// Reads the message counter of a chat, selected by the game identifier
/// when one comes, else by the chat identifier.  Fails as a process error
/// when neither comes, and as not found when no row matches.
pub fn get_number_of_messages_of_chat(
    store: &Store,
    game_id: Option<&String>,
    chat_id: Option<&String>,
) -> (res: Result<u64, RepoError>)
    ensures
        match (game_id, chat_id) {
            (Some(g), _) => match res {
                Ok(n) => has_chat_of_game(store.chats@, g@) && n == chats_of_game(
                    store.chats@,
                    g@,
                )[0].number_of_messages,
                Err(e) => !has_chat_of_game(store.chats@, g@) && e.is_query(StatusClass::NotFound),
            },
            (None, Some(c)) => match res {
                Ok(n) => has_chat(store.chats@, c@) && n == chats_with_id(
                    store.chats@,
                    c@,
                )[0].number_of_messages,
                Err(e) => !has_chat(store.chats@, c@) && e.is_query(StatusClass::NotFound),
            },
            (None, None) => res matches Err(e) && e.is_process(),
        },
{
    match (game_id, chat_id) {
        (Some(g), _) => match find_chat_of_game(&store.chats, g) {
            Some(i) => {
                proof {
                    lemma_first_match(store.chats@, chat_in_game(g@), i as int);
                    assert(chat_in_game(g@)(store.chats@[i as int]));
                }
                Ok(store.chats[i].number_of_messages)
            },
            None => Err(
                RepoError::query(
                    "A chat entry for the game wasn't in the database!",
                    StatusClass::NotFound,
                ),
            ),
        },
        (None, Some(c)) => match find_chat(&store.chats, c) {
            Some(i) => {
                proof {
                    lemma_first_match(store.chats@, chat_has_id(c@), i as int);
                    assert(chat_has_id(c@)(store.chats@[i as int]));
                }
                Ok(store.chats[i].number_of_messages)
            },
            None => Err(
                RepoError::query(
                    "The chat instance couldn't be found in the database!",
                    StatusClass::NotFound,
                ),
            ),
        },
        (None, None) => Err(
            RepoError::process(
                "Invalid data input! At least provide one of the game and chat identifiers!",
                "ChatRepository::get_number_of_messages_of_chat",
            ),
        ),
    }
}

/// Writes the message counter of a chat, selected by the game identifier
/// when one comes, else by the chat identifier.  Fails as a process error
/// when neither comes or when no row matches; a matching write echoes the
/// written value back.
pub fn update_number_of_messages_of_chat(
    store: &mut Store,
    updated_number_of_messages: u64,
    chat_id: Option<&String>,
    game_id: Option<&String>,
) -> (res: Result<u64, RepoError>)
    requires
        old(store).wf(),
    ensures
        final(store).wf(),
        old(store).agrees_except_chats(*final(store)),
        match (game_id, chat_id) {
            (Some(g), _) => match res {
                Ok(n) => has_chat_of_game(old(store).chats@, g@) && n
                    == updated_number_of_messages && counts_set_by_game(
                    old(store).chats@,
                    final(store).chats@,
                    g@,
                    updated_number_of_messages,
                ),
                Err(e) => !has_chat_of_game(old(store).chats@, g@) && e.is_process() && final(store).chats@ == old(store).chats@,
            },
            (None, Some(c)) => match res {
                Ok(n) => has_chat(old(store).chats@, c@) && n == updated_number_of_messages
                    && counts_set_by_id(
                    old(store).chats@,
                    final(store).chats@,
                    c@,
                    updated_number_of_messages,
                ),
                Err(e) => !has_chat(old(store).chats@, c@) && e.is_process() && final(store).chats@
                    == old(store).chats@,
            },
            (None, None) => final(store).chats@ == old(store).chats@ && (res matches Err(e)
                && e.is_process()),
        },
{
    match (game_id, chat_id) {
        (Some(g), _) => {
            let matched = set_count_by_game_id(&mut store.chats, g, updated_number_of_messages);
            proof {
                lemma_counts_keep_wf(old(store).chats@, store.chats@);
            }
            if matched {
                Ok(updated_number_of_messages)
            } else {
                proof {
                    assert(store.chats@ =~= old(store).chats@);
                }
                Err(
                    RepoError::process(
                        "The chat object belonging to the game couldn't be found, therefore the counter couldn't be updated!",
                        "ChatRepository::update_number_of_messages_of_chat",
                    ),
                )
            }
        },
        (None, Some(c)) => {
            let matched = set_count_by_chat_id(&mut store.chats, c, updated_number_of_messages);
            proof {
                lemma_counts_keep_wf(old(store).chats@, store.chats@);
            }
            if matched {
                Ok(updated_number_of_messages)
            } else {
                proof {
                    assert(store.chats@ =~= old(store).chats@);
                }
                Err(
                    RepoError::process(
                        "The chat object couldn't be found, therefore the counter couldn't be updated!",
                        "ChatRepository::update_number_of_messages_of_chat",
                    ),
                )
            }
        },
        (None, None) => Err(
            RepoError::process(
                "An invalid data input was passed! At least pass one of the chat and game identifiers!",
                "ChatRepository::update_number_of_messages_of_chat",
            ),
        ),
    }
}

/// Saves a new message to a chat, counter first: reads the chat's counter,
/// writes it incremented by one, then inserts the message row.  A failing
/// insert leaves the incremented counter in place — the steps commit
/// independently.
pub fn add_new_message_to_chat(store: &mut Store, chat_id: &String, chat_message: ChatMessage) -> (res:
    Result<ChatMessage, RepoError>)
    requires
        old(store).wf(),
    ensures
        final(store).wf(),
        old(store).games@ == final(store).games@,
        old(store).players@ == final(store).players@,
        old(store).claims@ == final(store).claims@,
        old(store).cards@ == final(store).cards@,
        ({
            let chats0 = old(store).chats@;
            let msgs0 = old(store).messages@;
            if !has_chat(chats0, chat_id@) {
                &&& final(store).same_tables(*old(store))
                &&& res matches Err(e) && e.is_query(StatusClass::NotFound)
            } else {
                let n0 = chats_with_id(chats0, chat_id@)[0].number_of_messages;
                if n0 == u64::MAX {
                    &&& final(store).same_tables(*old(store))
                    &&& res matches Err(e) && e.is_process()
                } else if has_msg(msgs0, chat_message.id@) {
                    &&& counts_set_by_id(chats0, final(store).chats@, chat_id@, (n0 + 1) as u64)
                    &&& final(store).messages@ == msgs0
                    &&& res matches Err(e) && e.is_query(StatusClass::InternalServerError)
                } else {
                    &&& counts_set_by_id(chats0, final(store).chats@, chat_id@, (n0 + 1) as u64)
                    &&& final(store).messages@ == msgs0.push(chat_message)
                    &&& res matches Ok(m) && m == chat_message
                }
            }
        }),
{
    let n0 = match get_number_of_messages_of_chat(store, None, Some(chat_id)) {
        Ok(n) => n,
        Err(e) => {
            return Err(e);
        },
    };
    if n0 == u64::MAX {
        return Err(
            RepoError::process(
                "The message counter of the chat can't grow any further!",
                "ChatRepository::add_new_message_to_chat",
            ),
        );
    }
    let updated_num_of_mess = n0 + 1;
    match update_number_of_messages_of_chat(store, updated_num_of_mess, Some(chat_id), None) {
        Ok(_) => (),
        Err(e) => {
            return Err(e);
        },
    };
    match save_message(store, &chat_message) {
        Ok(m) => Ok(m),
        Err(e) => Err(e),
    }
}

/// Removes a message from a chat, counter first: refuses outright, as a
/// consistency error and without touching anything, when the counter is
/// already zero; otherwise writes the decremented counter, checks the echo,
/// and deletes the message row.  A failing delete leaves the decremented
/// counter in place — the steps commit independently.
pub fn remove_message_from_chat(store: &mut Store, chat_id: &String, message_id: &String) -> (res:
    Result<ChatMessage, RepoError>)
    requires
        old(store).wf(),
    ensures
        final(store).wf(),
        old(store).games@ == final(store).games@,
        old(store).players@ == final(store).players@,
        old(store).claims@ == final(store).claims@,
        old(store).cards@ == final(store).cards@,
        ({
            let chats0 = old(store).chats@;
            let msgs0 = old(store).messages@;
            if !has_chat(chats0, chat_id@) {
                &&& final(store).same_tables(*old(store))
                &&& res matches Err(e) && e.is_query(StatusClass::NotFound)
            } else {
                let n0 = chats_with_id(chats0, chat_id@)[0].number_of_messages;
                if n0 == 0 {
                    &&& final(store).same_tables(*old(store))
                    &&& res matches Err(e) && e.is_process()
                } else if !has_msg(msgs0, message_id@) {
                    &&& counts_set_by_id(chats0, final(store).chats@, chat_id@, (n0 - 1) as u64)
                    &&& final(store).messages@ == msgs0
                    &&& res matches Err(e) && e.is_query(StatusClass::NotFound)
                } else {
                    &&& counts_set_by_id(chats0, final(store).chats@, chat_id@, (n0 - 1) as u64)
                    &&& final(store).messages@ == msgs0.filter(msg_id_not(message_id@))
                    &&& res matches Ok(m) && msgs0.contains(m) && m.id@ == message_id@
                }
            }
        }),
{
    let n0 = match get_number_of_messages_of_chat(store, None, Some(chat_id)) {
        Ok(n) => n,
        Err(e) => {
            return Err(e);
        },
    };
    if n0 == 0 {
        return Err(
            RepoError::process(
                "The number of messages of the chat can't be negative!",
                "ChatRepository::remove_message_from_chat",
            ),
        );
    }
    let expected = n0 - 1;
    let written = match update_number_of_messages_of_chat(store, expected, Some(chat_id), None) {
        Ok(n) => n,
        Err(e) => {
            return Err(e);
        },
    };
    if written != expected {
        return Err(
            RepoError::process(
                "The message counter hasn't changed after a successful operation!",
                "ChatRepository::remove_message_from_chat",
            ),
        );
    }
    match delete_message_by_id(store, message_id) {
        Ok(m) => Ok(m),
        Err(e) => Err(e),
    }
}

/// Fetches a chat and hydrates its messages, ordered by creation time
/// ascending.  Selects by the game identifier when one comes, else by the
/// chat identifier, else scans the table and takes the first row.  Fails as
/// not found when nothing matches.
pub fn get_chat(store: &Store, chat_id: Option<&String>, game_id: Option<&String>) -> (res: Result<
    Chat,
    RepoError,
>)
    requires
        store.wf(),
    ensures
        ({
            let found = match (game_id, chat_id) {
                (Some(g), _) => has_chat_of_game(store.chats@, g@),
                (None, Some(c)) => has_chat(store.chats@, c@),
                (None, None) => store.chats@.len() > 0,
            };
            match res {
                Ok(chat) => {
                    &&& found
                    &&& chat.row == (match (game_id, chat_id) {
                        (Some(g), _) => chats_of_game(store.chats@, g@)[0],
                        (None, Some(c)) => chats_with_id(store.chats@, c@)[0],
                        (None, None) => store.chats@[0],
                    })
                    &&& chat.messages@.to_multiset() == msgs_of_chat(
                        store.messages@,
                        chat.row.id@,
                    ).to_multiset()
                    &&& sorted_by_sent_at(chat.messages@)
                    &&& chat.messages@.len() == msgs_of_chat(store.messages@, chat.row.id@).len()
                },
                Err(e) => !found && e.is_query(StatusClass::NotFound),
            }
        }),
{
    let idx: Option<usize> = match (game_id, chat_id) {
        (Some(g), _) => {
            let r = find_chat_of_game(&store.chats, g);
            proof {
                if r is Some {
                    lemma_first_match(store.chats@, chat_in_game(g@), r->Some_0 as int);
                    assert(chat_in_game(g@)(store.chats@[r->Some_0 as int]));
                }
            }
            r
        },
        (None, Some(c)) => {
            let r = find_chat(&store.chats, c);
            proof {
                if r is Some {
                    lemma_first_match(store.chats@, chat_has_id(c@), r->Some_0 as int);
                    assert(chat_has_id(c@)(store.chats@[r->Some_0 as int]));
                }
            }
            r
        },
        (None, None) => if store.chats.len() > 0 {
            Some(0)
        } else {
            None
        },
    };
    match idx {
        None => Err(
            RepoError::query("Couldn't find a chat instance to return!", StatusClass::NotFound),
        ),
        Some(i) => {
            let row = store.chats[i].clone();
            let messages = match get_all_messages_in_chat(store, &row.id) {
                Ok(m) => m,
                Err(e) => {
                    return Err(e);
                },
            };
            Ok(Chat { row, messages })
        },
    }
}

} // verus!
