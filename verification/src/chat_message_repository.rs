//! CRUD operations for individual chat messages, scoped to a chat.
//!
//! Message reads for a chat return the rows ordered by creation time,
//! ascending.  Deleting by identifier surfaces the deleted row; deleting by
//! chat removes every message of that chat.

use vstd::prelude::*;
use vstd::multiset::Multiset;
use crate::errors::{RepoError, StatusClass};
use crate::store::{
    Store, find_message, has_msg, msgs_of_chat, in_chat, not_in_chat, msg_id_not, msg_key,
    unique_keys, lemma_filter_push, lemma_remove_by_key, lemma_filter_unique_keys,
    lemma_insert_to_multiset,
};
use crate::types::ChatMessage;

verus! {

broadcast use vstd::seq_lib::group_to_multiset_ensures;

/// Message rows ordered by creation time, ascending.
pub open spec fn sorted_by_sent_at(s: Seq<ChatMessage>) -> bool {
    forall|i: int, j: int| 0 <= i < j < s.len() ==> s[i].sent_at <= s[j].sent_at
}

/// Inserts a message row.  Fails with an internal error when the identifier
/// is already taken; nothing changes then.  On success the stored row comes
/// back.
pub fn save_message(store: &mut Store, message: &ChatMessage) -> (res: Result<
    ChatMessage,
    RepoError,
>)
    requires
        old(store).wf(),
    ensures
        final(store).wf(),
        old(store).agrees_except_messages(*final(store)),
        match res {
            Ok(m) => {
                &&& !has_msg(old(store).messages@, message.id@)
                &&& final(store).messages@ == old(store).messages@.push(*message)
                &&& m == *message
            },
            Err(e) => {
                &&& final(store).messages@ == old(store).messages@
                &&& has_msg(old(store).messages@, message.id@)
                &&& e.is_query(StatusClass::InternalServerError)
            },
        },
{
    match find_message(&store.messages, &message.id) {
        Some(_) => Err(
            RepoError::query_with_echo(
                "Failed to add the chat message to the database!",
                &message.id,
                StatusClass::InternalServerError,
            ),
        ),
        None => {
            let row = message.clone();
            let echo = message.clone();
            proof {
                let pushed = old(store).messages@.push(row);
                assert forall|i: int, j: int| 0 <= i < j < pushed.len() implies msg_key()(
                    pushed[i],
                ) != msg_key()(pushed[j]) by {
                    if j < old(store).messages@.len() {
                        assert(msg_key()(old(store).messages@[i]) != msg_key()(
                            old(store).messages@[j],
                        ));
                    }
                }
            }
            store.messages.push(row);
            Ok(echo)
        },
    }
}

/// Deletes the message row with the given identifier and surfaces it.
/// Fails as not found when no row carries the identifier; nothing changes
/// then.
pub fn delete_message_by_id(store: &mut Store, message_id: &String) -> (res: Result<
    ChatMessage,
    RepoError,
>)
    requires
        old(store).wf(),
    ensures
        final(store).wf(),
        old(store).agrees_except_messages(*final(store)),
        match res {
            Ok(m) => {
                &&& has_msg(old(store).messages@, message_id@)
                &&& old(store).messages@.contains(m)
                &&& m.id@ == message_id@
                &&& final(store).messages@ == old(store).messages@.filter(msg_id_not(message_id@))
            },
            Err(e) => {
                &&& final(store).messages@ == old(store).messages@
                &&& !has_msg(old(store).messages@, message_id@)
                &&& e.is_query(StatusClass::NotFound)
            },
        },
{
    match find_message(&store.messages, message_id) {
        None => Err(RepoError::query("Message not found", StatusClass::NotFound)),
        Some(i) => {
            proof {
                lemma_remove_by_key(
                    old(store).messages@,
                    msg_key(),
                    i as int,
                    msg_id_not(message_id@),
                );
                lemma_filter_unique_keys(
                    old(store).messages@,
                    msg_id_not(message_id@),
                    msg_key(),
                );
            }
            let m = store.messages.remove(i);
            Ok(m)
        },
    }
}

/// Deletes every message row of the given chat.
pub fn delete_all_messages_in_chat(store: &mut Store, chat_id: &String) -> (res: Result<
    (),
    RepoError,
>)
    requires
        old(store).wf(),
    ensures
        final(store).wf(),
        old(store).agrees_except_messages(*final(store)),
        res is Ok,
        final(store).messages@ == old(store).messages@.filter(not_in_chat(chat_id@)),
{
    let mut out: Vec<ChatMessage> = Vec::new();
    let mut i: usize = 0;
    let n = store.messages.len();
    while i < n
        invariant
            n == store.messages@.len(),
            i <= n,
            store.messages@ == old(store).messages@,
            out@ == old(store).messages@.subrange(0, i as int).filter(not_in_chat(chat_id@)),
        decreases n - i,
    {
        let keep = store.messages[i].chat_id != *chat_id;
        proof {
            let pre = old(store).messages@;
            assert(pre.subrange(0, i + 1 as int) =~= pre.subrange(0, i as int).push(
                pre[i as int],
            ));
            lemma_filter_push(pre.subrange(0, i as int), not_in_chat(chat_id@), pre[i as int]);
            assert(not_in_chat(chat_id@)(pre[i as int]) == keep);
        }
        if keep {
            let m = store.messages[i].clone();
            out.push(m);
        }
        i = i + 1;
    }
    proof {
        assert(old(store).messages@.subrange(0, old(store).messages@.len() as int) =~= old(
            store,
        ).messages@);
        lemma_filter_unique_keys(old(store).messages@, not_in_chat(chat_id@), msg_key());
    }
    store.messages = out;
    Ok(())
}

/// Deletes every message row in the table.
pub fn delete_all_messages(store: &mut Store) -> (res: Result<(), RepoError>)
    requires
        old(store).wf(),
    ensures
        final(store).wf(),
        old(store).agrees_except_messages(*final(store)),
        res is Ok,
        final(store).messages@.len() == 0,
{
    store.messages = Vec::new();
    Ok(())
}

/// Fetches the message row with the given identifier.
pub fn get_message_by_id(store: &Store, message_id: &String) -> (res: Result<
    ChatMessage,
    RepoError,
>)
    ensures
        match res {
            Ok(m) => store.messages@.contains(m) && m.id@ == message_id@,
            Err(e) => !has_msg(store.messages@, message_id@) && e.is_query(StatusClass::NotFound),
        },
{
    match find_message(&store.messages, message_id) {
        Some(i) => {
            let m = store.messages[i].clone();
            proof {
                assert(store.messages@[i as int] == m);
            }
            Ok(m)
        },
        None => Err(
            RepoError::query("The chat message couldn't be found!", StatusClass::NotFound),
        ),
    }
}

/// Sorts messages by creation time, ascending, keeping exactly the given
/// rows.
pub fn sort_messages_by_time(v: Vec<ChatMessage>) -> (res: Vec<ChatMessage>)
    ensures
        res@.to_multiset() == v@.to_multiset(),
        sorted_by_sent_at(res@),
{
    let mut out: Vec<ChatMessage> = Vec::new();
    let mut i: usize = 0;
    while i < v.len()
        invariant
            i <= v@.len(),
            out@.to_multiset() == v@.subrange(0, i as int).to_multiset(),
            sorted_by_sent_at(out@),
        decreases v@.len() - i,
    {
        let x = v[i].clone();
        let mut k: usize = 0;
        while k < out.len() && out[k].sent_at <= x.sent_at
            invariant
                k <= out@.len(),
                forall|t: int| 0 <= t < k ==> (#[trigger] out@[t]).sent_at <= x.sent_at,
            decreases out@.len() - k,
        {
            k = k + 1;
        }
        proof {
            let pre = out@;
            lemma_insert_to_multiset(pre, k as int, x);
            assert(v@.subrange(0, i + 1 as int) =~= v@.subrange(0, i as int).push(v@[i as int]));
            assert(v@.subrange(0, i + 1 as int).to_multiset() =~= v@.subrange(
                0,
                i as int,
            ).to_multiset().insert(v@[i as int]));
            let post = pre.insert(k as int, x);
            assert forall|a: int, b: int| 0 <= a < b < post.len() implies post[a].sent_at
                <= post[b].sent_at by {
                if b < k {
                } else if a < k && b == k {
                } else if a == k {
                    assert(post[b] == pre[b - 1]);
                    if k < pre.len() {
                        assert(pre[k as int].sent_at <= pre[b - 1].sent_at || k as int == b - 1);
                    }
                } else if a > k {
                    assert(post[a] == pre[a - 1] && post[b] == pre[b - 1]);
                } else {
                    assert(post[a] == pre[a] && post[b] == pre[b - 1]);
                    if k < pre.len() {
                        assert(pre[a].sent_at <= pre[b - 1].sent_at || a == b - 1);
                    }
                }
            }
        }
        out.insert(k, x);
        i = i + 1;
    }
    proof {
        assert(v@.subrange(0, v@.len() as int) =~= v@);
    }
    out
}

/// Fetches every message of the given chat, ordered by creation time
/// ascending.  The result holds exactly the chat's message rows: the same
/// rows by count, the same identifiers, each identifier once.
pub fn get_all_messages_in_chat(store: &Store, chat_id: &String) -> (res: Result<
    Vec<ChatMessage>,
    RepoError,
>)
    requires
        store.wf(),
    ensures
        res is Ok,
        match res {
            Ok(v) => {
                &&& v@.to_multiset() == msgs_of_chat(store.messages@, chat_id@).to_multiset()
                &&& sorted_by_sent_at(v@)
                &&& v@.len() == msgs_of_chat(store.messages@, chat_id@).len()
                &&& unique_keys(v@, msg_key())
                &&& forall|k: int|
                    0 <= k < v@.len() ==> msgs_of_chat(store.messages@, chat_id@).contains(
                        #[trigger] v@[k],
                    )
                &&& forall|id: Seq<char>|
                    has_msg(v@, id) == has_msg(msgs_of_chat(store.messages@, chat_id@), id)
            },
            Err(_) => false,
        },
{
    let mut collected: Vec<ChatMessage> = Vec::new();
    let mut i: usize = 0;
    while i < store.messages.len()
        invariant
            i <= store.messages@.len(),
            collected@ == msgs_of_chat(store.messages@.subrange(0, i as int), chat_id@),
        decreases store.messages@.len() - i,
    {
        let keep = store.messages[i].chat_id == *chat_id;
        proof {
            let pre = store.messages@;
            assert(pre.subrange(0, i + 1 as int) =~= pre.subrange(0, i as int).push(pre[i as int]));
            lemma_filter_push(pre.subrange(0, i as int), in_chat(chat_id@), pre[i as int]);
            assert(in_chat(chat_id@)(pre[i as int]) == keep);
        }
        if keep {
            collected.push(store.messages[i].clone());
        }
        i = i + 1;
    }
    proof {
        assert(store.messages@.subrange(0, store.messages@.len() as int) =~= store.messages@);
    }
    let ghost fseq = msgs_of_chat(store.messages@, chat_id@);
    let sorted = sort_messages_by_time(collected);
    proof {
        lemma_filter_unique_keys(store.messages@, in_chat(chat_id@), msg_key());
        lemma_same_multiset_meta(sorted@, fseq);
    }
    Ok(sorted)
}

/// Two message sequences with the same multiset hold the same rows, the
/// same identifiers, and — when one has distinct identifiers — so does the
/// other.
proof fn lemma_same_multiset_meta(a: Seq<ChatMessage>, b: Seq<ChatMessage>)
    requires
        a.to_multiset() == b.to_multiset(),
        unique_keys(b, msg_key()),
    ensures
        a.len() == b.len(),
        unique_keys(a, msg_key()),
        forall|k: int| 0 <= k < a.len() ==> b.contains(#[trigger] a[k]),
        forall|id: Seq<char>| has_msg(a, id) == has_msg(b, id),
{
    assert(a.to_multiset().len() == a.len());
    assert(b.to_multiset().len() == b.len());
    assert forall|k: int| 0 <= k < a.len() implies b.contains(#[trigger] a[k]) by {
        assert(a.contains(a[k]));
        assert(a.to_multiset().count(a[k]) > 0);
        assert(b.to_multiset().count(a[k]) > 0);
    }
    assert forall|k: int| 0 <= k < b.len() implies a.contains(#[trigger] b[k]) by {
        assert(b.contains(b[k]));
        assert(b.to_multiset().count(b[k]) > 0);
        assert(a.to_multiset().count(b[k]) > 0);
    }
    assert forall|id: Seq<char>| has_msg(a, id) == has_msg(b, id) by {
        if has_msg(a, id) {
            let k = choose|k: int| 0 <= k < a.len() && a[k].id@ == id;
            assert(b.contains(a[k]));
            let w = choose|w: int| 0 <= w < b.len() && b[w] == a[k];
            assert(has_msg(b, id));
        }
        if has_msg(b, id) {
            let k = choose|k: int| 0 <= k < b.len() && b[k].id@ == id;
            assert(a.contains(b[k]));
            let w = choose|w: int| 0 <= w < a.len() && a[w] == b[k];
            assert(has_msg(a, id));
        }
    }
    assert forall|i: int, j: int| 0 <= i < j < a.len() implies msg_key()(a[i]) != msg_key()(
        a[j],
    ) by {
        if a[i] == a[j] {
            lemma_dup_count(a, i, j);
            assert(a.to_multiset().count(a[i]) >= 2);
            lemma_count_le_one(b, a[i]);
        } else {
            assert(b.contains(a[i]));
            assert(b.contains(a[j]));
            let wi = choose|w: int| 0 <= w < b.len() && b[w] == a[i];
            let wj = choose|w: int| 0 <= w < b.len() && b[w] == a[j];
            assert(wi != wj);
            if wi < wj {
                assert(msg_key()(b[wi]) != msg_key()(b[wj]));
            } else {
                assert(msg_key()(b[wj]) != msg_key()(b[wi]));
            }
        }
    }
}

/// A sequence with the same element at two positions counts it at least
/// twice in its multiset.
proof fn lemma_dup_count(s: Seq<ChatMessage>, i: int, j: int)
    requires
        0 <= i < j < s.len(),
        s[i] == s[j],
    ensures
        s.to_multiset().count(s[i]) >= 2,
{
    let r = s.remove(i);
    assert(r.to_multiset() =~= s.to_multiset().remove(s[i]));
    assert(r[j - 1] == s[j]);
    assert(r.contains(s[i]));
    assert(r.to_multiset().count(s[i]) > 0);
    broadcast use vstd::multiset::group_multiset_axioms;

    assert(s.to_multiset().count(s[i]) == r.to_multiset().count(s[i]) + 1);
}

/// A sequence with distinct identifiers counts every row at most once.
proof fn lemma_count_le_one(s: Seq<ChatMessage>, x: ChatMessage)
    requires
        unique_keys(s, msg_key()),
    ensures
        s.to_multiset().count(x) <= 1,
    decreases s.len(),
{
    broadcast use vstd::multiset::group_multiset_axioms;

    if s.len() == 0 {
        assert(s =~= Seq::<ChatMessage>::empty());
        assert(s.to_multiset() =~= Multiset::<ChatMessage>::empty());
    } else {
        let dl = s.drop_last();
        assert(forall|t: int| 0 <= t < dl.len() ==> dl[t] == s[t]);
        lemma_count_le_one(dl, x);
        assert(s =~= dl.push(s.last()));
        assert(s.to_multiset() =~= dl.to_multiset().insert(s.last()));
        if x == s.last() {
            if dl.to_multiset().count(x) > 0 {
                assert(dl.contains(x));
                let w = choose|w: int| 0 <= w < dl.len() && dl[w] == x;
                assert(msg_key()(s[w]) != msg_key()(s[s.len() - 1]));
            }
        }
    }
}

} // verus!
