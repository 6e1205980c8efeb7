//! The properties the repository layer stands for, each proved.
//!
//! The counter law: a chat's `number_of_messages` equals the true count of
//! its message rows after any sequence of successful, well-scoped message
//! additions and removals.  The reconciliation laws: reconciling a chat
//! against its own current message set changes nothing, and the player
//! reconciliation deletes exactly the current players the desired set no
//! longer names, keeps the others untouched, and inserts the desired
//! newcomers.

use vstd::prelude::*;
use crate::chat_repository::with_count;
use crate::game_repository::{
    list_has_msg, list_has_player, msg_is_new, msg_keep, player_is_new, player_keep, stored_rows,
};
use crate::store::{
    chat_has_id, chat_key, chats_with_id, has_msg, has_player, in_chat, not_in_chat, msg_id_not,
    msg_key, msgs_of_chat, players_of_game, player_in_game, player_key, unique_keys,
    lemma_filter_push, lemma_filter_all_true, lemma_filter_all_false, lemma_filter_len_remove,
    lemma_filter_unique_keys, lemma_filter_elements, lemma_first_match, lemma_remove_by_key,
};
use crate::types::{ChatMessage, ChatRow, Player, PlayerRow};

verus! {

/// The chat-side state the counter law speaks of: the chat rows and the
/// message rows.
pub struct ChatState {
    pub chats: Seq<ChatRow>,
    pub messages: Seq<ChatMessage>,
}

/// Every chat row's counter equals the true count of its message rows.
pub open spec fn chats_consistent(st: ChatState) -> bool {
    forall|i: int|
        0 <= i < st.chats.len() ==> (#[trigger] st.chats[i]).number_of_messages == msgs_of_chat(
            st.messages,
            st.chats[i].id@,
        ).len()
}

/// Distinct chat and message identifiers — what the store's
/// well-formedness gives these two tables.
pub open spec fn chat_state_wf(st: ChatState) -> bool {
    unique_keys(st.chats, chat_key()) && unique_keys(st.messages, msg_key())
}

/// One message operation on a chat: save a new message, counter first, or
/// remove one, counter first.
pub enum ChatOp {
    Add { chat_id: Seq<char>, message: ChatMessage },
    Remove { chat_id: Seq<char>, message_id: Seq<char> },
}

/// The chat table after a counter write selecting by identifier, written
/// out row by row.
pub open spec fn counts_written(chats: Seq<ChatRow>, id: Seq<char>, n: u64) -> Seq<ChatRow> {
    Seq::new(
        chats.len(),
        |j: int|
            if chats[j].id@ == id {
                with_count(chats[j], n)
            } else {
                chats[j]
            },
    )
}

/// Whether the operation succeeds on this state, and is scoped to its chat:
/// an addition carries a fresh message that names the chat it is added to;
/// a removal names a message that exists and belongs to that chat.
pub open spec fn chat_op_ok(st: ChatState, op: ChatOp) -> bool {
    match op {
        ChatOp::Add { chat_id, message } => {
            &&& crate::store::has_chat(st.chats, chat_id)
            &&& chats_with_id(st.chats, chat_id)[0].number_of_messages < u64::MAX
            &&& !has_msg(st.messages, message.id@)
            &&& message.chat_id@ == chat_id
        },
        ChatOp::Remove { chat_id, message_id } => {
            &&& crate::store::has_chat(st.chats, chat_id)
            &&& chats_with_id(st.chats, chat_id)[0].number_of_messages > 0
            &&& has_msg(st.messages, message_id)
            &&& forall|i: int|
                0 <= i < st.messages.len() && (#[trigger] st.messages[i]).id@ == message_id
                    ==> st.messages[i].chat_id@ == chat_id
        },
    }
}

/// The state a successful operation leaves: the counter is written first
/// and the message rows follow, exactly as the chat repository does it.
pub open spec fn apply_chat_op(st: ChatState, op: ChatOp) -> ChatState {
    match op {
        ChatOp::Add { chat_id, message } => {
            let n0 = chats_with_id(st.chats, chat_id)[0].number_of_messages;
            ChatState {
                chats: counts_written(st.chats, chat_id, (n0 + 1) as u64),
                messages: st.messages.push(message),
            }
        },
        ChatOp::Remove { chat_id, message_id } => {
            let n0 = chats_with_id(st.chats, chat_id)[0].number_of_messages;
            ChatState {
                chats: counts_written(st.chats, chat_id, (n0 - 1) as u64),
                messages: st.messages.filter(msg_id_not(message_id)),
            }
        },
    }
}

/// The state after a whole sequence of operations, applied left to right.
pub open spec fn apply_chat_ops(st: ChatState, ops: Seq<ChatOp>) -> ChatState
    decreases ops.len(),
{
    if ops.len() == 0 {
        st
    } else {
        apply_chat_ops(apply_chat_op(st, ops[0]), ops.drop_first())
    }
}

/// Every operation of the sequence succeeds on the state it meets.
pub open spec fn chat_ops_ok(st: ChatState, ops: Seq<ChatOp>) -> bool
    decreases ops.len(),
{
    ops.len() == 0 || (chat_op_ok(st, ops[0]) && chat_ops_ok(apply_chat_op(st, ops[0]), ops.drop_first()))
}

/// In a chat table with distinct identifiers, the first row carrying an
/// identifier that row `j` carries is row `j` itself.
proof fn lemma_own_first(chats: Seq<ChatRow>, j: int)
    requires
        unique_keys(chats, chat_key()),
        0 <= j < chats.len(),
    ensures
        chats_with_id(chats, chats[j].id@).len() > 0,
        chats_with_id(chats, chats[j].id@)[0] == chats[j],
{
    assert forall|k: int| 0 <= k < j implies !(chat_has_id(chats[j].id@)(#[trigger] chats[k])) by {
        assert(chat_key()(chats[k]) != chat_key()(chats[j]));
    }
    lemma_first_match(chats, chat_has_id(chats[j].id@), j);
}

/// One successful, well-scoped operation keeps every counter equal to its
/// chat's true message count.
pub proof fn law_chat_op_preserves_consistency(st: ChatState, op: ChatOp)
    requires
        chat_state_wf(st),
        chats_consistent(st),
        chat_op_ok(st, op),
    ensures
        chat_state_wf(apply_chat_op(st, op)),
        chats_consistent(apply_chat_op(st, op)),
{
    let post = apply_chat_op(st, op);
    assert forall|i: int, j: int| 0 <= i < j < post.chats.len() implies chat_key()(post.chats[i])
        != chat_key()(post.chats[j]) by {
        assert(chat_key()(st.chats[i]) != chat_key()(st.chats[j]));
    }
    match op {
        ChatOp::Add { chat_id, message } => {
            assert forall|i: int, j: int|
                0 <= i < j < post.messages.len() implies msg_key()(post.messages[i]) != msg_key()(
                post.messages[j],
            ) by {
                if j < st.messages.len() {
                    assert(msg_key()(st.messages[i]) != msg_key()(st.messages[j]));
                } else {
                    assert(post.messages[j] == message);
                    if msg_key()(post.messages[i]) == msg_key()(message) {
                        assert(st.messages[i].id@ == message.id@);
                    }
                }
            }
            assert forall|i: int|
                0 <= i < post.chats.len() implies (#[trigger] post.chats[i]).number_of_messages
                == msgs_of_chat(post.messages, post.chats[i].id@).len() by {
            lemma_filter_push(st.messages, in_chat(st.chats[i].id@), message);
                lemma_own_first(st.chats, i);
                if st.chats[i].id@ == chat_id {
                    assert(in_chat(st.chats[i].id@)(message));
                } else {
                    assert(!(in_chat(st.chats[i].id@)(message)));
                    assert(post.chats[i] == st.chats[i]);
                }
            }
        },
        ChatOp::Remove { chat_id, message_id } => {
            lemma_filter_unique_keys(st.messages, msg_id_not(message_id), msg_key());
            let w = choose|w: int|
                0 <= w < st.messages.len() && (#[trigger] st.messages[w]).id@ == message_id;
            assert(st.messages[w].chat_id@ == chat_id);
            lemma_remove_by_key(st.messages, msg_key(), w, msg_id_not(message_id));
            assert(post.messages == st.messages.remove(w));
            assert forall|i: int|
                0 <= i < post.chats.len() implies (#[trigger] post.chats[i]).number_of_messages
                == msgs_of_chat(post.messages, post.chats[i].id@).len() by {
                lemma_filter_len_remove(st.messages, in_chat(st.chats[i].id@), w);
                lemma_own_first(st.chats, i);
                if st.chats[i].id@ == chat_id {
                    assert(in_chat(st.chats[i].id@)(st.messages[w]));
                } else {
                    assert(!(in_chat(st.chats[i].id@)(st.messages[w])));
                    assert(post.chats[i] == st.chats[i]);
                }
            }
        },
    }
}

/// The counter law: after any sequence of successful, well-scoped message
/// additions and removals, every chat's `number_of_messages` equals the
/// true count of its message rows.
pub proof fn law_counter_matches_rows(st: ChatState, ops: Seq<ChatOp>)
    requires
        chat_state_wf(st),
        chats_consistent(st),
        chat_ops_ok(st, ops),
    ensures
        chats_consistent(apply_chat_ops(st, ops)),
    decreases ops.len(),
{
    if ops.len() > 0 {
        law_chat_op_preserves_consistency(st, ops[0]);
        law_counter_matches_rows(apply_chat_op(st, ops[0]), ops.drop_first());
    }
}

/// A successful message addition, as the chat repository promises it,
/// takes the chat-side state exactly to the modeled one.
pub proof fn law_add_matches_model(
    pre_chats: Seq<ChatRow>,
    post_chats: Seq<ChatRow>,
    pre_msgs: Seq<ChatMessage>,
    post_msgs: Seq<ChatMessage>,
    chat_id: Seq<char>,
    message: ChatMessage,
)
    requires
        unique_keys(pre_chats, chat_key()),
        crate::store::has_chat(pre_chats, chat_id),
        chats_with_id(pre_chats, chat_id)[0].number_of_messages < u64::MAX,
        !has_msg(pre_msgs, message.id@),
        crate::chat_repository::counts_set_by_id(
            pre_chats,
            post_chats,
            chat_id,
            (chats_with_id(pre_chats, chat_id)[0].number_of_messages + 1) as u64,
        ),
        post_msgs == pre_msgs.push(message),
        message.chat_id@ == chat_id,
    ensures
        ((ChatState { chats: post_chats, messages: post_msgs }) == apply_chat_op(
            (ChatState { chats: pre_chats, messages: pre_msgs }),
            (ChatOp::Add { chat_id, message }),
        )),
        (chat_op_ok(
            (ChatState { chats: pre_chats, messages: pre_msgs }),
            (ChatOp::Add { chat_id, message }),
        )),
{
    let n1 = (chats_with_id(pre_chats, chat_id)[0].number_of_messages + 1) as u64;
    assert(post_chats =~= counts_written(pre_chats, chat_id, n1));
}

/// A successful message removal, as the chat repository promises it, takes
/// the chat-side state exactly to the modeled one.
pub proof fn law_remove_matches_model(
    pre_chats: Seq<ChatRow>,
    post_chats: Seq<ChatRow>,
    pre_msgs: Seq<ChatMessage>,
    post_msgs: Seq<ChatMessage>,
    chat_id: Seq<char>,
    message_id: Seq<char>,
)
    requires
        unique_keys(pre_chats, chat_key()),
        crate::store::has_chat(pre_chats, chat_id),
        chats_with_id(pre_chats, chat_id)[0].number_of_messages > 0,
        has_msg(pre_msgs, message_id),
        forall|i: int|
            0 <= i < pre_msgs.len() && (#[trigger] pre_msgs[i]).id@ == message_id
                ==> pre_msgs[i].chat_id@ == chat_id,
        crate::chat_repository::counts_set_by_id(
            pre_chats,
            post_chats,
            chat_id,
            (chats_with_id(pre_chats, chat_id)[0].number_of_messages - 1) as u64,
        ),
        post_msgs == pre_msgs.filter(msg_id_not(message_id)),
    ensures
        ((ChatState { chats: post_chats, messages: post_msgs }) == apply_chat_op(
            (ChatState { chats: pre_chats, messages: pre_msgs }),
            (ChatOp::Remove { chat_id, message_id }),
        )),
        (chat_op_ok(
            (ChatState { chats: pre_chats, messages: pre_msgs }),
            (ChatOp::Remove { chat_id, message_id }),
        )),
{
    let n1 = (chats_with_id(pre_chats, chat_id)[0].number_of_messages - 1) as u64;
    assert(post_chats =~= counts_written(pre_chats, chat_id, n1));
}

/// Reconciling a chat against its own current message set is a no-op on
/// the message table: nothing qualifies for deletion and nothing for
/// insertion.
pub proof fn law_chat_reconcile_idempotent(
    msgs: Seq<ChatMessage>,
    cid: Seq<char>,
    desired: Seq<ChatMessage>,
)
    requires
        forall|id: Seq<char>| list_has_msg(desired, id) == has_msg(msgs_of_chat(msgs, cid), id),
    ensures
        msgs.filter(msg_keep(cid, desired)) + desired.filter(
            msg_is_new(msgs_of_chat(msgs, cid)),
        ) == msgs,
        msgs_of_chat(msgs, cid).len() == 0 ==> msgs.filter(not_in_chat(cid)) == msgs,
{
    let cur = msgs_of_chat(msgs, cid);
    assert forall|i: int| 0 <= i < msgs.len() implies msg_keep(cid, desired)(#[trigger] msgs[i]) by {
        if msgs[i].chat_id@ == cid {
            msgs.lemma_filter_contains(in_chat(cid), i);
            assert(cur.contains(msgs[i]));
            let k = choose|k: int| 0 <= k < cur.len() && cur[k] == msgs[i];
            assert(has_msg(cur, msgs[i].id@));
        }
    }
    lemma_filter_all_true(msgs, msg_keep(cid, desired));
    assert forall|i: int| 0 <= i < desired.len() implies !(msg_is_new(cur)(
        #[trigger] desired[i],
    )) by {
        assert(list_has_msg(desired, desired[i].id@));
    }
    lemma_filter_all_false(desired, msg_is_new(cur));
    assert(msgs + Seq::<ChatMessage>::empty() =~= msgs);
    if cur.len() == 0 {
        assert forall|i: int| 0 <= i < msgs.len() implies not_in_chat(cid)(#[trigger] msgs[i]) by {
            if msgs[i].chat_id@ == cid {
                msgs.lemma_filter_contains(in_chat(cid), i);
            }
        }
        lemma_filter_all_true(msgs, not_in_chat(cid));
    }
}

/// The player reconciliation law, over the table it leaves behind: every
/// current player of the game that the desired set no longer names is gone;
/// every row the desired set keeps — and every row of another game —
/// survives exactly as it was; every desired newcomer is present.
pub proof fn law_player_reconciliation(
    pre: Seq<PlayerRow>,
    game: Seq<char>,
    desired: Seq<Player>,
)
    requires
        unique_keys(pre, player_key()),
    ensures
        ({
            let cur = players_of_game(pre, game);
            let post = pre.filter(player_keep(game, desired)) + stored_rows(
                desired.filter(player_is_new(cur)),
            );
            &&& forall|j: int|
                0 <= j < pre.len() && (#[trigger] pre[j]).game_id@ == game && !list_has_player(
                    desired,
                    pre[j].id@,
                ) ==> !has_player(post, pre[j].id@)
            &&& forall|j: int|
                0 <= j < pre.len() && ((#[trigger] pre[j]).game_id@ != game || list_has_player(
                    desired,
                    pre[j].id@,
                )) ==> post.contains(pre[j])
            &&& forall|k: int|
                0 <= k < desired.len() && !has_player(cur, (#[trigger] desired[k]).row.id@)
                    ==> has_player(post, desired[k].row.id@)
        }),
{
    let cur = players_of_game(pre, game);
    let keep = pre.filter(player_keep(game, desired));
    let adds = desired.filter(player_is_new(cur));
    let post = keep + stored_rows(adds);
    lemma_filter_elements(pre, player_keep(game, desired));
    assert forall|j: int|
        0 <= j < pre.len() && (#[trigger] pre[j]).game_id@ == game && !list_has_player(
            desired,
            pre[j].id@,
        ) implies !has_player(post, pre[j].id@) by {
        if has_player(post, pre[j].id@) {
            let w = choose|w: int| 0 <= w < post.len() && (#[trigger] post[w]).id@ == pre[j].id@;
            if w < keep.len() {
                assert(pre.contains(keep[w]));
                let v = choose|v: int| 0 <= v < pre.len() && pre[v] == keep[w];
                pre.lemma_filter_pred(player_keep(game, desired), w);
                if v != j {
                    assert(player_key()(pre[v]) != player_key()(pre[j]) || player_key()(pre[j])
                        != player_key()(pre[v]));
                }
            } else {
                let k = w - keep.len();
                assert(post[w] == stored_rows(adds)[k]);
                assert(stored_rows(adds)[k].id@ == adds[k].row.id@);
                desired.lemma_filter_pred(player_is_new(cur), k);
                assert(!has_player(cur, adds[k].row.id@));
                pre.lemma_filter_contains(player_in_game(game), j);
                assert(cur.contains(pre[j]));
                let v = choose|v: int| 0 <= v < cur.len() && cur[v] == pre[j];
                assert(has_player(cur, pre[j].id@));
            }
        }
    }
    assert forall|j: int|
        0 <= j < pre.len() && ((#[trigger] pre[j]).game_id@ != game || list_has_player(
            desired,
            pre[j].id@,
        )) implies post.contains(pre[j]) by {
        pre.lemma_filter_contains(player_keep(game, desired), j);
        assert(keep.contains(pre[j]));
        let w = choose|w: int| 0 <= w < keep.len() && keep[w] == pre[j];
        assert(post[w] == pre[j]);
    }
    assert forall|k: int|
        0 <= k < desired.len() && !has_player(cur, (#[trigger] desired[k]).row.id@) implies
        has_player(post, desired[k].row.id@) by {
        desired.lemma_filter_contains(player_is_new(cur), k);
        assert(adds.contains(desired[k]));
        let w = choose|w: int| 0 <= w < adds.len() && adds[w] == desired[k];
        assert(stored_rows(adds)[w].id@ == adds[w].row.id@);
        assert(post[keep.len() + w].id@ == desired[k].row.id@);
    }
}

} // verus!
