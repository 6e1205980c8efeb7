//! The row store that the repositories operate on.
//!
//! Six tables, one per entity, each a sequence of rows with identifiers
//! unique within the table.  Every repository operation is a sequence of
//! independently committed statement-level steps on these tables; there is
//! no multi-statement transaction, so a failing operation leaves the steps
//! already taken in place.
//!
//! The statement-level helpers here say exactly what each step does to the
//! table it touches; the repository modules compose them.

use vstd::prelude::*;
use crate::types::{Card, ChatMessage, ChatRow, ClaimRow, GameRow, PlayerRow};

verus! {

/// Key distinctness: no two elements of `s` share a key.
pub open spec fn unique_keys<A>(s: Seq<A>, key: spec_fn(A) -> Seq<char>) -> bool {
    forall|i: int, j: int| 0 <= i < j < s.len() ==> key(s[i]) != key(s[j])
}

/// Unfolds `filter` over a `push`.
pub proof fn lemma_filter_push<A>(s: Seq<A>, pred: spec_fn(A) -> bool, x: A)
    ensures
        s.push(x).filter(pred) == if pred(x) {
            s.filter(pred).push(x)
        } else {
            s.filter(pred)
        },
{
    reveal(Seq::filter);
    assert(s.push(x).drop_last() =~= s);
}

/// Every element of a filtered sequence is an element of the source.
pub proof fn lemma_filter_elements<A>(s: Seq<A>, pred: spec_fn(A) -> bool)
    ensures
        forall|k: int| 0 <= k < s.filter(pred).len() ==> s.contains(#[trigger] s.filter(pred)[k]),
    decreases s.len(),
{
    reveal(Seq::filter);
    if s.len() > 0 {
        let dl = s.drop_last();
        lemma_filter_elements(dl, pred);
        assert forall|k: int|
            0 <= k < s.filter(pred).len() implies s.contains(#[trigger] s.filter(pred)[k]) by {
            if pred(s.last()) && k == s.filter(pred).len() - 1 {
                assert(s[s.len() - 1] == s.filter(pred)[k]);
            } else {
                assert(s.filter(pred)[k] == dl.filter(pred)[k]);
                assert(dl.contains(dl.filter(pred)[k]));
                let j = choose|j: int| 0 <= j < dl.len() && dl[j] == dl.filter(pred)[k];
                assert(s[j] == s.filter(pred)[k]);
            }
        }
    }
}

/// Filtering keeps keys distinct.
pub proof fn lemma_filter_unique_keys<A>(
    s: Seq<A>,
    pred: spec_fn(A) -> bool,
    key: spec_fn(A) -> Seq<char>,
)
    requires
        unique_keys(s, key),
    ensures
        unique_keys(s.filter(pred), key),
        forall|k: int| 0 <= k < s.filter(pred).len() ==> s.contains(#[trigger] s.filter(pred)[k]),
    decreases s.len(),
{
    reveal(Seq::filter);
    lemma_filter_elements(s, pred);
    if s.len() > 0 {
        let dl = s.drop_last();
        assert(unique_keys(dl, key)) by {
            assert(forall|i: int| 0 <= i < dl.len() ==> dl[i] == s[i]);
        }
        lemma_filter_unique_keys(dl, pred, key);
        let f = s.filter(pred);
        assert forall|i: int, j: int| 0 <= i < j < f.len() implies key(f[i]) != key(f[j]) by {
            if pred(s.last()) && j == f.len() - 1 && f == dl.filter(pred).push(s.last()) {
                assert(f[i] == dl.filter(pred)[i]);
                assert(dl.contains(f[i]));
                let w = choose|w: int| 0 <= w < dl.len() && dl[w] == f[i];
                assert(key(s[w]) != key(s[s.len() - 1]));
            } else {
                assert(f[i] == dl.filter(pred)[i] && f[j] == dl.filter(pred)[j]);
            }
        }
    }
}

/// A filter whose predicate holds everywhere returns the source unchanged.
pub proof fn lemma_filter_all_true<A>(s: Seq<A>, pred: spec_fn(A) -> bool)
    requires
        forall|i: int| 0 <= i < s.len() ==> pred(#[trigger] s[i]),
    ensures
        s.filter(pred) == s,
    decreases s.len(),
{
    reveal(Seq::filter);
    if s.len() > 0 {
        let dl = s.drop_last();
        assert(forall|i: int| 0 <= i < dl.len() ==> dl[i] == s[i]);
        lemma_filter_all_true(dl, pred);
        assert(s.filter(pred) =~= s);
    }
}

/// A filter whose predicate holds nowhere returns the empty sequence.
pub proof fn lemma_filter_all_false<A>(s: Seq<A>, pred: spec_fn(A) -> bool)
    requires
        forall|i: int| 0 <= i < s.len() ==> !pred(#[trigger] s[i]),
    ensures
        s.filter(pred) == Seq::<A>::empty(),
    decreases s.len(),
{
    reveal(Seq::filter);
    if s.len() == 0 {
        assert(s.filter(pred) =~= Seq::<A>::empty());
    } else {
        let dl = s.drop_last();
        assert(forall|i: int| 0 <= i < dl.len() ==> dl[i] == s[i]);
        lemma_filter_all_false(dl, pred);
    }
}

/// Two filters in a row are the filter by the conjunction.
pub proof fn lemma_filter_filter<A>(
    s: Seq<A>,
    p: spec_fn(A) -> bool,
    q: spec_fn(A) -> bool,
    conj: spec_fn(A) -> bool,
)
    requires
        forall|a: A| #[trigger] conj(a) == (p(a) && q(a)),
    ensures
        s.filter(q).filter(p) == s.filter(conj),
    decreases s.len(),
{
    reveal(Seq::filter);
    if s.len() > 0 {
        let dl = s.drop_last();
        lemma_filter_filter(dl, p, q, conj);
        if q(s.last()) {
            lemma_filter_push(dl.filter(q), p, s.last());
        }
    }
}

/// Filters running in step over two sequences that mirror each other
/// through a projection pick out mirrored subsequences.
pub proof fn lemma_filter_parallel<A, B>(
    a: Seq<A>,
    b: Seq<B>,
    pa: spec_fn(A) -> bool,
    pb: spec_fn(B) -> bool,
    proj: spec_fn(A) -> B,
)
    requires
        a.len() == b.len(),
        forall|k: int| 0 <= k < a.len() ==> proj(#[trigger] a[k]) == b[k],
        forall|k: int| 0 <= k < a.len() ==> pa(#[trigger] a[k]) == pb(b[k]),
    ensures
        a.filter(pa).len() == b.filter(pb).len(),
        forall|k: int|
            0 <= k < a.filter(pa).len() ==> proj(#[trigger] a.filter(pa)[k]) == b.filter(pb)[k],
    decreases a.len(),
{
    reveal(Seq::filter);
    if a.len() > 0 {
        let da = a.drop_last();
        let db = b.drop_last();
        assert(forall|k: int| 0 <= k < da.len() ==> da[k] == a[k]);
        assert(forall|k: int| 0 <= k < db.len() ==> db[k] == b[k]);
        lemma_filter_parallel(da, db, pa, pb, proj);
        assert(pa(a.last()) == pb(b.last()));
        assert forall|k: int|
            0 <= k < a.filter(pa).len() implies proj(#[trigger] a.filter(pa)[k]) == b.filter(
            pb,
        )[k] by {
            if pa(a.last()) && k == a.filter(pa).len() - 1 {
                assert(proj(a.last()) == b.last());
            } else {
                assert(a.filter(pa)[k] == da.filter(pa)[k]);
                assert(b.filter(pb)[k] == db.filter(pb)[k]);
            }
        }
    }
}

/// Filters by pointwise-equal predicates agree.
pub proof fn lemma_filter_equiv<A>(s: Seq<A>, p: spec_fn(A) -> bool, q: spec_fn(A) -> bool)
    requires
        forall|i: int| 0 <= i < s.len() ==> p(#[trigger] s[i]) == q(s[i]),
    ensures
        s.filter(p) == s.filter(q),
    decreases s.len(),
{
    reveal(Seq::filter);
    if s.len() > 0 {
        let dl = s.drop_last();
        assert(forall|i: int| 0 <= i < dl.len() ==> dl[i] == s[i]);
        lemma_filter_equiv(dl, p, q);
    }
}

/// Removing the element at `i` removes exactly it from the table: when the
/// keys of `s` are distinct and `pred` holds exactly of the elements whose
/// key differs from that of `s[i]`, the remainder is the filter by `pred`.
pub proof fn lemma_remove_by_key<A>(
    s: Seq<A>,
    key: spec_fn(A) -> Seq<char>,
    i: int,
    pred: spec_fn(A) -> bool,
)
    requires
        unique_keys(s, key),
        0 <= i < s.len(),
        forall|a: A| #[trigger] pred(a) == (key(a) != key(s[i])),
    ensures
        s.remove(i) == s.filter(pred),
{
    let a = s.subrange(0, i);
    let mid = s.subrange(i, i + 1);
    let b = s.subrange(i + 1, s.len() as int);
    assert(s =~= a + mid + b);
    Seq::filter_distributes_over_add(a + mid, b, pred);
    Seq::filter_distributes_over_add(a, mid, pred);
    assert(forall|k: int| 0 <= k < a.len() ==> pred(#[trigger] a[k]));
    assert(forall|k: int| 0 <= k < b.len() ==> pred(#[trigger] b[k])) by {
        assert(forall|k: int| 0 <= k < b.len() ==> b[k] == s[i + 1 + k]);
    }
    lemma_filter_all_true(a, pred);
    lemma_filter_all_true(b, pred);
    assert(mid.len() == 1 && mid[0] == s[i]);
    lemma_filter_all_false(mid, pred);
    assert(s.filter(pred) =~= a + b);
    assert(s.remove(i) =~= a + b);
}

/// The chat row carrying exactly identifier `id`.
pub open spec fn chat_has_id(id: Seq<char>) -> spec_fn(ChatRow) -> bool {
    |c: ChatRow| c.id@ == id
}

/// The chat rows carrying identifier `id`, in table order — at most one in
/// a well-formed store.
pub open spec fn chats_with_id(s: Seq<ChatRow>, id: Seq<char>) -> Seq<ChatRow> {
    s.filter(chat_has_id(id))
}

/// The first element of `s` satisfying `pred` — known to sit at `i` — leads
/// the filtered sequence.
pub proof fn lemma_first_match<A>(s: Seq<A>, pred: spec_fn(A) -> bool, i: int)
    requires
        0 <= i < s.len(),
        pred(s[i]),
        forall|j: int| 0 <= j < i ==> !pred(#[trigger] s[j]),
    ensures
        s.filter(pred).len() > 0,
        s.filter(pred)[0] == s[i],
{
    let a = s.subrange(0, i);
    let b = s.subrange(i, s.len() as int);
    assert(s =~= a + b);
    Seq::filter_distributes_over_add(a, b, pred);
    assert(forall|k: int| 0 <= k < a.len() ==> !pred(#[trigger] a[k]));
    lemma_filter_all_false(a, pred);
    let mid = s.subrange(i, i + 1);
    let rest = s.subrange(i + 1, s.len() as int);
    assert(b =~= mid + rest);
    Seq::filter_distributes_over_add(mid, rest, pred);
    assert(mid =~= Seq::<A>::empty().push(s[i]));
    lemma_filter_singleton(s[i], pred);
    assert(s.filter(pred)[0] == s[i]);
}

/// Inserting an element anywhere in a sequence inserts it into the
/// sequence's multiset.
pub proof fn lemma_insert_to_multiset<A>(s: Seq<A>, k: int, x: A)
    requires
        0 <= k <= s.len(),
    ensures
        s.insert(k, x).to_multiset() == s.to_multiset().insert(x),
{
    broadcast use vstd::seq_lib::group_to_multiset_ensures;
    broadcast use vstd::multiset::group_multiset_axioms;

    let t = s.insert(k, x);
    assert(t[k] == x);
    assert(t.remove(k) =~= s);
    assert(t.remove(k).to_multiset() =~= t.to_multiset().remove(t[k]));
    assert(t.contains(x));
    assert(t.to_multiset() =~= s.to_multiset().insert(x)) by {
        assert forall|a: A|
            t.to_multiset().count(a) == s.to_multiset().insert(x).count(a) by {
            if a == x {
                assert(t.to_multiset().count(x) > 0);
            }
        }
    }
}

/// Unfolds `filter` over a singleton sequence.
pub proof fn lemma_filter_singleton<A>(x: A, pred: spec_fn(A) -> bool)
    ensures
        Seq::<A>::empty().push(x).filter(pred) == if pred(x) {
            Seq::<A>::empty().push(x)
        } else {
            Seq::<A>::empty()
        },
{
    reveal(Seq::filter);
    assert(Seq::<A>::empty().push(x).drop_last() =~= Seq::<A>::empty());
    assert(Seq::<A>::empty().filter(pred) =~= Seq::<A>::empty());
}

/// How the length of a filter changes when one element is removed.
pub proof fn lemma_filter_len_remove<A>(s: Seq<A>, pred: spec_fn(A) -> bool, i: int)
    requires
        0 <= i < s.len(),
    ensures
        s.filter(pred).len() == s.remove(i).filter(pred).len() + if pred(s[i]) {
            1int
        } else {
            0int
        },
{
    let a = s.subrange(0, i);
    let mid = s.subrange(i, i + 1);
    let b = s.subrange(i + 1, s.len() as int);
    assert(s =~= a + mid + b);
    Seq::filter_distributes_over_add(a + mid, b, pred);
    Seq::filter_distributes_over_add(a, mid, pred);
    assert(s.remove(i) =~= a + b);
    Seq::filter_distributes_over_add(a, b, pred);
    assert(mid =~= Seq::<A>::empty().push(s[i]));
    lemma_filter_singleton(s[i], pred);
    assert(mid.filter(pred).len() == if pred(s[i]) { 1int } else { 0int });
}

/// The identifier of a game row, as a named key function.
pub open spec fn game_key() -> spec_fn(GameRow) -> Seq<char> {
    |g: GameRow| g.id@
}

/// The identifier of a player row, as a named key function.
pub open spec fn player_key() -> spec_fn(PlayerRow) -> Seq<char> {
    |p: PlayerRow| p.id@
}

/// The identifier of a chat row, as a named key function.
pub open spec fn chat_key() -> spec_fn(ChatRow) -> Seq<char> {
    |c: ChatRow| c.id@
}

/// The identifier of a message row, as a named key function.
pub open spec fn msg_key() -> spec_fn(ChatMessage) -> Seq<char> {
    |m: ChatMessage| m.id@
}

/// The identifier of a claim row, as a named key function.
pub open spec fn claim_key() -> spec_fn(ClaimRow) -> Seq<char> {
    |c: ClaimRow| c.id@
}

/// The identifier of a card row, as a named key function.
pub open spec fn card_key() -> spec_fn(Card) -> Seq<char> {
    |c: Card| c.id@
}

/// Membership of a message in the chat with identifier `chat`.
pub open spec fn in_chat(chat: Seq<char>) -> spec_fn(ChatMessage) -> bool {
    |m: ChatMessage| m.chat_id@ == chat
}

/// Membership of a message outside the chat with identifier `chat`.
pub open spec fn not_in_chat(chat: Seq<char>) -> spec_fn(ChatMessage) -> bool {
    |m: ChatMessage| m.chat_id@ != chat
}

/// Membership of a player in the game with identifier `game`.
pub open spec fn player_in_game(game: Seq<char>) -> spec_fn(PlayerRow) -> bool {
    |p: PlayerRow| p.game_id@ == game
}

/// Membership of a chat row in the game with identifier `game`.
pub open spec fn chat_in_game(game: Seq<char>) -> spec_fn(ChatRow) -> bool {
    |c: ChatRow| c.game_id@ == game
}

/// Membership of a chat row outside the game with identifier `game`.
pub open spec fn chat_not_in_game(game: Seq<char>) -> spec_fn(ChatRow) -> bool {
    |c: ChatRow| c.game_id@ != game
}

/// Membership of a claim in the game with identifier `game`.
pub open spec fn claim_in_game(game: Seq<char>) -> spec_fn(ClaimRow) -> bool {
    |c: ClaimRow| c.game_id@ == game
}

/// Membership of a claim outside the game with identifier `game`.
pub open spec fn claim_not_in_game(game: Seq<char>) -> spec_fn(ClaimRow) -> bool {
    |c: ClaimRow| c.game_id@ != game
}

/// Creation of a claim by the player with identifier `player`.
pub open spec fn claim_by_player(player: Seq<char>) -> spec_fn(ClaimRow) -> bool {
    |c: ClaimRow| c.created_by@ == player
}

/// Ownership of a card by the claim with identifier `claim`.
pub open spec fn card_in_claim(claim: Seq<char>) -> spec_fn(Card) -> bool {
    |c: Card| c.claim_id matches Some(x) && x@ == claim
}

/// Ownership of a card by the player with identifier `player`.
pub open spec fn card_of_player(player: Seq<char>) -> spec_fn(Card) -> bool {
    |c: Card| c.player_id matches Some(x) && x@ == player
}

/// Every game row but the one with identifier `id`.
pub open spec fn game_id_not(id: Seq<char>) -> spec_fn(GameRow) -> bool {
    |g: GameRow| g.id@ != id
}

/// Every player row but the one with identifier `id`.
pub open spec fn player_id_not(id: Seq<char>) -> spec_fn(PlayerRow) -> bool {
    |p: PlayerRow| p.id@ != id
}

/// Every chat row but the one with identifier `id`.
pub open spec fn chat_id_not(id: Seq<char>) -> spec_fn(ChatRow) -> bool {
    |c: ChatRow| c.id@ != id
}

/// Every message row but the one with identifier `id`.
pub open spec fn msg_id_not(id: Seq<char>) -> spec_fn(ChatMessage) -> bool {
    |m: ChatMessage| m.id@ != id
}

/// Every claim row but the one with identifier `id`.
pub open spec fn claim_id_not(id: Seq<char>) -> spec_fn(ClaimRow) -> bool {
    |c: ClaimRow| c.id@ != id
}

/// Every card row but the one with identifier `id`.
pub open spec fn card_id_not(id: Seq<char>) -> spec_fn(Card) -> bool {
    |c: Card| c.id@ != id
}

/// Whether some game row carries identifier `id`.
pub open spec fn has_game(s: Seq<GameRow>, id: Seq<char>) -> bool {
    exists|i: int| 0 <= i < s.len() && (#[trigger] s[i]).id@ == id
}

/// Whether some player row carries identifier `id`.
pub open spec fn has_player(s: Seq<PlayerRow>, id: Seq<char>) -> bool {
    exists|i: int| 0 <= i < s.len() && (#[trigger] s[i]).id@ == id
}

/// Whether some chat row carries identifier `id`.
pub open spec fn has_chat(s: Seq<ChatRow>, id: Seq<char>) -> bool {
    exists|i: int| 0 <= i < s.len() && (#[trigger] s[i]).id@ == id
}

/// Whether some message row carries identifier `id`.
pub open spec fn has_msg(s: Seq<ChatMessage>, id: Seq<char>) -> bool {
    exists|i: int| 0 <= i < s.len() && (#[trigger] s[i]).id@ == id
}

/// Whether some claim row carries identifier `id`.
pub open spec fn has_claim(s: Seq<ClaimRow>, id: Seq<char>) -> bool {
    exists|i: int| 0 <= i < s.len() && (#[trigger] s[i]).id@ == id
}

/// Whether some card row carries identifier `id`.
pub open spec fn has_card(s: Seq<Card>, id: Seq<char>) -> bool {
    exists|i: int| 0 <= i < s.len() && (#[trigger] s[i]).id@ == id
}

/// The message rows belonging to the chat with identifier `chat`, in table
/// order.
pub open spec fn msgs_of_chat(s: Seq<ChatMessage>, chat: Seq<char>) -> Seq<ChatMessage> {
    s.filter(in_chat(chat))
}

/// The player rows belonging to the game with identifier `game`, in table
/// order.
pub open spec fn players_of_game(s: Seq<PlayerRow>, game: Seq<char>) -> Seq<PlayerRow> {
    s.filter(player_in_game(game))
}

/// The chat rows belonging to the game with identifier `game`, in table
/// order.
pub open spec fn chats_of_game(s: Seq<ChatRow>, game: Seq<char>) -> Seq<ChatRow> {
    s.filter(chat_in_game(game))
}

/// Whether some chat row belongs to the game with identifier `game`.
pub open spec fn has_chat_of_game(s: Seq<ChatRow>, game: Seq<char>) -> bool {
    exists|i: int| 0 <= i < s.len() && (#[trigger] s[i]).game_id@ == game
}

/// The claim rows belonging to the game with identifier `game`, in table
/// order.
pub open spec fn claims_of_game(s: Seq<ClaimRow>, game: Seq<char>) -> Seq<ClaimRow> {
    s.filter(claim_in_game(game))
}

/// The claim rows created by the player with identifier `player`, in table
/// order.
pub open spec fn claims_of_player(s: Seq<ClaimRow>, player: Seq<char>) -> Seq<ClaimRow> {
    s.filter(claim_by_player(player))
}

/// The card rows owned by the claim with identifier `claim`, in table order.
pub open spec fn cards_of_claim(s: Seq<Card>, claim: Seq<char>) -> Seq<Card> {
    s.filter(card_in_claim(claim))
}

/// The card rows owned by the player with identifier `player`, in table
/// order.
pub open spec fn cards_of_player(s: Seq<Card>, player: Seq<char>) -> Seq<Card> {
    s.filter(card_of_player(player))
}

/// The store: one table per entity.  Rows within a table never share an
/// identifier; a card is owned by at most one of a claim and a player.
pub struct Store {
    pub games: Vec<GameRow>,
    pub players: Vec<PlayerRow>,
    pub chats: Vec<ChatRow>,
    pub messages: Vec<ChatMessage>,
    pub claims: Vec<ClaimRow>,
    pub cards: Vec<Card>,
}

impl Store {
    /// Well-formedness: identifier uniqueness per table, and exclusive card
    /// ownership.  Every operation preserves it.
    pub open spec fn wf(self) -> bool {
        &&& unique_keys(self.games@, game_key())
        &&& unique_keys(self.players@, player_key())
        &&& unique_keys(self.chats@, chat_key())
        &&& unique_keys(self.messages@, msg_key())
        &&& unique_keys(self.claims@, claim_key())
        &&& unique_keys(self.cards@, card_key())
        &&& forall|i: int|
            0 <= i < self.cards@.len() ==> (#[trigger] self.cards@[i]).owners_exclusive()
    }

    /// The other store agrees with this one on every table but `games`.
    pub open spec fn agrees_except_games(self, o: Store) -> bool {
        &&& self.players@ == o.players@
        &&& self.chats@ == o.chats@
        &&& self.messages@ == o.messages@
        &&& self.claims@ == o.claims@
        &&& self.cards@ == o.cards@
    }

    /// The other store agrees with this one on every table but `players`.
    pub open spec fn agrees_except_players(self, o: Store) -> bool {
        &&& self.games@ == o.games@
        &&& self.chats@ == o.chats@
        &&& self.messages@ == o.messages@
        &&& self.claims@ == o.claims@
        &&& self.cards@ == o.cards@
    }

    /// The other store agrees with this one on every table but `chats`.
    pub open spec fn agrees_except_chats(self, o: Store) -> bool {
        &&& self.games@ == o.games@
        &&& self.players@ == o.players@
        &&& self.messages@ == o.messages@
        &&& self.claims@ == o.claims@
        &&& self.cards@ == o.cards@
    }

    /// The other store agrees with this one on every table but `messages`.
    pub open spec fn agrees_except_messages(self, o: Store) -> bool {
        &&& self.games@ == o.games@
        &&& self.players@ == o.players@
        &&& self.chats@ == o.chats@
        &&& self.claims@ == o.claims@
        &&& self.cards@ == o.cards@
    }

    /// The other store agrees with this one on every table but `claims`.
    pub open spec fn agrees_except_claims(self, o: Store) -> bool {
        &&& self.games@ == o.games@
        &&& self.players@ == o.players@
        &&& self.chats@ == o.chats@
        &&& self.messages@ == o.messages@
        &&& self.cards@ == o.cards@
    }

    /// The other store agrees with this one on every table but `cards`.
    pub open spec fn agrees_except_cards(self, o: Store) -> bool {
        &&& self.games@ == o.games@
        &&& self.players@ == o.players@
        &&& self.chats@ == o.chats@
        &&& self.messages@ == o.messages@
        &&& self.claims@ == o.claims@
    }

    /// The two stores hold exactly the same rows.
    pub open spec fn same_tables(self, o: Store) -> bool {
        &&& self.games@ == o.games@
        &&& self.players@ == o.players@
        &&& self.chats@ == o.chats@
        &&& self.messages@ == o.messages@
        &&& self.claims@ == o.claims@
        &&& self.cards@ == o.cards@
    }

    /// An empty store.
    pub fn new() -> (res: Store)
        ensures
            res.wf(),
            res.games@.len() == 0,
            res.players@.len() == 0,
            res.chats@.len() == 0,
            res.messages@.len() == 0,
            res.claims@.len() == 0,
            res.cards@.len() == 0,
    {
        Store {
            games: Vec::new(),
            players: Vec::new(),
            chats: Vec::new(),
            messages: Vec::new(),
            claims: Vec::new(),
            cards: Vec::new(),
        }
    }
}

/// Index of the game row with the given identifier, if any.
pub fn find_game(v: &Vec<GameRow>, id: &String) -> (res: Option<usize>)
    ensures
        match res {
            Some(i) => i < v@.len() && v@[i as int].id@ == id@,
            None => forall|j: int| 0 <= j < v@.len() ==> (#[trigger] v@[j]).id@ != id@,
        },
{
    let mut i: usize = 0;
    while i < v.len()
        invariant
            i <= v@.len(),
            forall|j: int| 0 <= j < i ==> (#[trigger] v@[j]).id@ != id@,
        decreases v@.len() - i,
    {
        if v[i].id == *id {
            return Some(i);
        }
        i = i + 1;
    }
    None
}

/// Index of the player row with the given identifier, if any.
pub fn find_player(v: &Vec<PlayerRow>, id: &String) -> (res: Option<usize>)
    ensures
        match res {
            Some(i) => i < v@.len() && v@[i as int].id@ == id@,
            None => forall|j: int| 0 <= j < v@.len() ==> (#[trigger] v@[j]).id@ != id@,
        },
{
    let mut i: usize = 0;
    while i < v.len()
        invariant
            i <= v@.len(),
            forall|j: int| 0 <= j < i ==> (#[trigger] v@[j]).id@ != id@,
        decreases v@.len() - i,
    {
        if v[i].id == *id {
            return Some(i);
        }
        i = i + 1;
    }
    None
}

/// Index of the chat row with the given chat identifier, if any.
pub fn find_chat(v: &Vec<ChatRow>, id: &String) -> (res: Option<usize>)
    ensures
        match res {
            Some(i) => i < v@.len() && v@[i as int].id@ == id@ && forall|j: int|
                0 <= j < i ==> (#[trigger] v@[j]).id@ != id@,
            None => forall|j: int| 0 <= j < v@.len() ==> (#[trigger] v@[j]).id@ != id@,
        },
{
    let mut i: usize = 0;
    while i < v.len()
        invariant
            i <= v@.len(),
            forall|j: int| 0 <= j < i ==> (#[trigger] v@[j]).id@ != id@,
        decreases v@.len() - i,
    {
        if v[i].id == *id {
            return Some(i);
        }
        i = i + 1;
    }
    None
}

/// Index of the first chat row belonging to the given game, if any.
pub fn find_chat_of_game(v: &Vec<ChatRow>, game_id: &String) -> (res: Option<usize>)
    ensures
        match res {
            Some(i) => i < v@.len() && v@[i as int].game_id@ == game_id@ && forall|j: int|
                0 <= j < i ==> (#[trigger] v@[j]).game_id@ != game_id@,
            None => forall|j: int| 0 <= j < v@.len() ==> (#[trigger] v@[j]).game_id@ != game_id@,
        },
{
    let mut i: usize = 0;
    while i < v.len()
        invariant
            i <= v@.len(),
            forall|j: int| 0 <= j < i ==> (#[trigger] v@[j]).game_id@ != game_id@,
        decreases v@.len() - i,
    {
        if v[i].game_id == *game_id {
            return Some(i);
        }
        i = i + 1;
    }
    None
}

/// Index of the message row with the given identifier, if any.
pub fn find_message(v: &Vec<ChatMessage>, id: &String) -> (res: Option<usize>)
    ensures
        match res {
            Some(i) => i < v@.len() && v@[i as int].id@ == id@,
            None => forall|j: int| 0 <= j < v@.len() ==> (#[trigger] v@[j]).id@ != id@,
        },
{
    let mut i: usize = 0;
    while i < v.len()
        invariant
            i <= v@.len(),
            forall|j: int| 0 <= j < i ==> (#[trigger] v@[j]).id@ != id@,
        decreases v@.len() - i,
    {
        if v[i].id == *id {
            return Some(i);
        }
        i = i + 1;
    }
    None
}

/// Index of the claim row with the given identifier, if any.
pub fn find_claim(v: &Vec<ClaimRow>, id: &String) -> (res: Option<usize>)
    ensures
        match res {
            Some(i) => i < v@.len() && v@[i as int].id@ == id@,
            None => forall|j: int| 0 <= j < v@.len() ==> (#[trigger] v@[j]).id@ != id@,
        },
{
    let mut i: usize = 0;
    while i < v.len()
        invariant
            i <= v@.len(),
            forall|j: int| 0 <= j < i ==> (#[trigger] v@[j]).id@ != id@,
        decreases v@.len() - i,
    {
        if v[i].id == *id {
            return Some(i);
        }
        i = i + 1;
    }
    None
}

/// Index of the card row with the given identifier, if any.
pub fn find_card(v: &Vec<Card>, id: &String) -> (res: Option<usize>)
    ensures
        match res {
            Some(i) => i < v@.len() && v@[i as int].id@ == id@,
            None => forall|j: int| 0 <= j < v@.len() ==> (#[trigger] v@[j]).id@ != id@,
        },
{
    let mut i: usize = 0;
    while i < v.len()
        invariant
            i <= v@.len(),
            forall|j: int| 0 <= j < i ==> (#[trigger] v@[j]).id@ != id@,
        decreases v@.len() - i,
    {
        if v[i].id == *id {
            return Some(i);
        }
        i = i + 1;
    }
    None
}

} // verus!
