//! The mathematical model of a token ledger.
//!
//! A ledger is the sequence of its minted tokens, each with its holder and
//! its metadata. A token enters at the end when it is minted and moves to the
//! end when it changes hands, so the tokens of one holder appear in the order
//! in which that holder acquired them.

use crate::account::AccountView;
use crate::metadata::MetadataEntry;
use vstd::prelude::*;

verus! {

/// One minted token: its identifier, who holds it, and its metadata.
pub struct Holding {
    pub id: Seq<u32>,
    pub owner: AccountView,
    pub metadata: Vec<MetadataEntry>,
}

/// Whether position `i` of the ledger holds token `id`.
pub open spec fn held_at(h: Seq<Holding>, i: int, id: Seq<u32>) -> bool {
    0 <= i < h.len() && h[i].id == id
}

/// No identifier occurs at two positions.
pub open spec fn distinct_ids(h: Seq<Holding>) -> bool {
    forall|i: int, j: int| 0 <= i < j < h.len() ==> h[i].id != h[j].id
}

/// Whether token `id` is currently minted.
pub open spec fn minted(h: Seq<Holding>, id: Seq<u32>) -> bool {
    exists|i: int| held_at(h, i, id)
}

/// The position of a minted token.
pub open spec fn slot(h: Seq<Holding>, id: Seq<u32>) -> int {
    choose|i: int| held_at(h, i, id)
}

/// The account that holds token `id`, if it is minted.
pub open spec fn holder(h: Seq<Holding>, id: Seq<u32>) -> Option<AccountView> {
    if minted(h, id) {
        Some(h[slot(h, id)].owner)
    } else {
        None
    }
}

/// The metadata of token `id`, if it is minted.
pub open spec fn metadata_of(h: Seq<Holding>, id: Seq<u32>) -> Option<Vec<MetadataEntry>> {
    if minted(h, id) {
        Some(h[slot(h, id)].metadata)
    } else {
        None
    }
}

/// The tokens that account `a` holds, in the order it acquired them.
pub open spec fn tokens_of(h: Seq<Holding>, a: AccountView) -> Seq<Seq<u32>>
    decreases h.len(),
{
    if h.len() == 0 {
        Seq::empty()
    } else if h.last().owner == a {
        tokens_of(h.drop_last(), a).push(h.last().id)
    } else {
        tokens_of(h.drop_last(), a)
    }
}

/// A list of tokens with every occurrence of `id` taken out.
pub open spec fn without(s: Seq<Seq<u32>>, id: Seq<u32>) -> Seq<Seq<u32>>
    decreases s.len(),
{
    if s.len() == 0 {
        Seq::empty()
    } else if s.last() == id {
        without(s.drop_last(), id)
    } else {
        without(s.drop_last(), id).push(s.last())
    }
}

/// The ledger after token `id` was minted to `owner`.
pub open spec fn with_minted(
    h: Seq<Holding>,
    id: Seq<u32>,
    owner: AccountView,
    metadata: Vec<MetadataEntry>,
) -> Seq<Holding> {
    h.push(Holding { id, owner, metadata })
}

/// The ledger after the minted token `id` was burned.
pub open spec fn with_burned(h: Seq<Holding>, id: Seq<u32>) -> Seq<Holding> {
    h.remove(slot(h, id))
}

/// The ledger after the minted token `id` went to account `to`.
pub open spec fn with_moved(h: Seq<Holding>, id: Seq<u32>, to: AccountView) -> Seq<Holding> {
    let i = slot(h, id);
    h.remove(i).push(Holding { id, owner: to, metadata: h[i].metadata })
}

/// With distinct identifiers a token has one position.
pub proof fn lemma_slot(h: Seq<Holding>, i: int, id: Seq<u32>)
    requires
        distinct_ids(h),
        held_at(h, i, id),
    ensures
        minted(h, id),
        slot(h, id) == i,
{
    let j = slot(h, id);
    assert(held_at(h, j, id));
    if i < j {
        assert(h[i].id != h[j].id);
    } else if j < i {
        assert(h[j].id != h[i].id);
    }
}

/// The position of a minted token holds that token.
pub proof fn lemma_minted_slot(h: Seq<Holding>, id: Seq<u32>)
    requires
        minted(h, id),
    ensures
        held_at(h, slot(h, id), id),
{
}

/// The tokens of an account over two ledgers laid end to end.
pub proof fn lemma_tokens_of_concat(x: Seq<Holding>, y: Seq<Holding>, a: AccountView)
    ensures
        tokens_of(x + y, a) == tokens_of(x, a) + tokens_of(y, a),
    decreases y.len(),
{
    if y.len() == 0 {
        assert(x + y =~= x);
        assert(tokens_of(x, a) + tokens_of(y, a) =~= tokens_of(x, a));
    } else {
        lemma_tokens_of_concat(x, y.drop_last(), a);
        assert((x + y).drop_last() =~= x + y.drop_last());
        assert((x + y).last() == y.last());
        if y.last().owner == a {
            assert(tokens_of(x, a) + tokens_of(y.drop_last(), a).push(y.last().id) =~= (tokens_of(
                x,
                a,
            ) + tokens_of(y.drop_last(), a)).push(y.last().id));
        }
    }
}

/// A token is among those of an account exactly when some position holds it
/// for that account.
pub proof fn lemma_tokens_of_contains(h: Seq<Holding>, a: AccountView, id: Seq<u32>)
    ensures
        tokens_of(h, a).contains(id) <==> exists|i: int| held_at(h, i, id) && h[i].owner == a,
    decreases h.len(),
{
    if h.len() == 0 {
        assert(!tokens_of(h, a).contains(id));
    } else {
        let rest = h.drop_last();
        let last = h.len() - 1;
        lemma_tokens_of_contains(rest, a, id);
        if tokens_of(h, a).contains(id) {
            let k = choose|k: int| 0 <= k < tokens_of(h, a).len() && tokens_of(h, a)[k] == id;
            if h.last().owner == a && k == tokens_of(rest, a).len() {
                assert(held_at(h, last, id) && h[last].owner == a);
            } else {
                assert(tokens_of(rest, a)[k] == id);
                assert(tokens_of(rest, a).contains(id));
                let i = choose|i: int| held_at(rest, i, id) && rest[i].owner == a;
                assert(held_at(h, i, id) && h[i].owner == a);
            }
        }
        if exists|i: int| held_at(h, i, id) && h[i].owner == a {
            let i = choose|i: int| held_at(h, i, id) && h[i].owner == a;
            if i == last {
                let t = tokens_of(h, a);
                assert(t[t.len() - 1] == id);
            } else {
                assert(held_at(rest, i, id) && rest[i].owner == a);
                assert(tokens_of(rest, a).contains(id));
                let k = choose|k: int| 0 <= k < tokens_of(rest, a).len() && tokens_of(rest, a)[k] == id;
                assert(tokens_of(h, a)[k] == id);
            }
        }
    }
}

/// An account holds a token exactly when the token's holder is that account.
pub proof fn lemma_tokens_of_holder(h: Seq<Holding>, a: AccountView, id: Seq<u32>)
    requires
        distinct_ids(h),
    ensures
        tokens_of(h, a).contains(id) <==> holder(h, id) == Some(a),
{
    lemma_tokens_of_contains(h, a, id);
    if exists|i: int| held_at(h, i, id) && h[i].owner == a {
        let i = choose|i: int| held_at(h, i, id) && h[i].owner == a;
        lemma_slot(h, i, id);
    }
    if holder(h, id) == Some(a) {
        lemma_minted_slot(h, id);
        let i = slot(h, id);
        assert(held_at(h, i, id) && h[i].owner == a);
    }
}

/// Taking out a token that a list does not hold leaves the list as it is.
pub proof fn lemma_without_absent(s: Seq<Seq<u32>>, id: Seq<u32>)
    requires
        !s.contains(id),
    ensures
        without(s, id) == s,
    decreases s.len(),
{
    if s.len() == 0 {
        assert(without(s, id) =~= s);
    } else {
        assert(s.last() == s[s.len() - 1]);
        assert forall|k: int| 0 <= k < s.drop_last().len() implies s.drop_last()[k] != id by {
            assert(s[k] == s.drop_last()[k]);
        }
        lemma_without_absent(s.drop_last(), id);
        assert(s.drop_last().push(s.last()) =~= s);
    }
}

/// Taking a token out of two lists laid end to end.
pub proof fn lemma_without_concat(x: Seq<Seq<u32>>, y: Seq<Seq<u32>>, id: Seq<u32>)
    ensures
        without(x + y, id) == without(x, id) + without(y, id),
    decreases y.len(),
{
    if y.len() == 0 {
        assert(x + y =~= x);
        assert(without(x, id) + without(y, id) =~= without(x, id));
    } else {
        lemma_without_concat(x, y.drop_last(), id);
        assert((x + y).drop_last() =~= x + y.drop_last());
        assert((x + y).last() == y.last());
        if y.last() != id {
            assert(without(x, id) + without(y.drop_last(), id).push(y.last()) =~= (without(x, id)
                + without(y.drop_last(), id)).push(y.last()));
        }
    }
}

/// What a new token at the end of the ledger changes for one identifier.
pub proof fn lemma_push_holder(h: Seq<Holding>, x: Holding, id: Seq<u32>)
    requires
        distinct_ids(h),
        !minted(h, x.id),
    ensures
        distinct_ids(h.push(x)),
        minted(h.push(x), id) == (minted(h, id) || id == x.id),
        holder(h.push(x), id) == if id == x.id {
            Some(x.owner)
        } else {
            holder(h, id)
        },
        metadata_of(h.push(x), id) == if id == x.id {
            Some(x.metadata)
        } else {
            metadata_of(h, id)
        },
{
    let g = h.push(x);
    assert forall|i: int, j: int| 0 <= i < j < g.len() implies g[i].id != g[j].id by {
        if j == h.len() {
            assert(!held_at(h, i, x.id));
        }
    }
    if id == x.id {
        assert(held_at(g, h.len() as int, id));
        lemma_slot(g, h.len() as int, id);
    } else if minted(h, id) {
        let i = slot(h, id);
        assert(held_at(g, i, id));
        lemma_slot(g, i, id);
    } else if minted(g, id) {
        let i = slot(g, id);
        assert(held_at(h, i, id));
    }
}

/// What a new token at the end of the ledger changes for one account.
pub proof fn lemma_push_tokens(h: Seq<Holding>, x: Holding, a: AccountView)
    ensures
        tokens_of(h.push(x), a) == if x.owner == a {
            tokens_of(h, a).push(x.id)
        } else {
            tokens_of(h, a)
        },
{
    assert(h.push(x).drop_last() =~= h);
}

/// What taking position `i` out of the ledger changes for one identifier.
pub proof fn lemma_remove_holder(h: Seq<Holding>, i: int, id: Seq<u32>)
    requires
        distinct_ids(h),
        0 <= i < h.len(),
    ensures
        distinct_ids(h.remove(i)),
        minted(h.remove(i), id) == (minted(h, id) && id != h[i].id),
        holder(h.remove(i), id) == if id == h[i].id {
            None
        } else {
            holder(h, id)
        },
        metadata_of(h.remove(i), id) == if id == h[i].id {
            None
        } else {
            metadata_of(h, id)
        },
{
    let g = h.remove(i);
    assert forall|p: int, q: int| 0 <= p < q < g.len() implies g[p].id != g[q].id by {
        let p0 = if p < i { p } else { p + 1 };
        let q0 = if q < i { q } else { q + 1 };
        assert(g[p] == h[p0] && g[q] == h[q0]);
    }
    if minted(g, id) {
        let p = slot(g, id);
        let p0 = if p < i { p } else { p + 1 };
        assert(held_at(h, p0, id));
        lemma_slot(h, p0, id);
        if id == h[i].id {
            lemma_slot(h, i, id);
        }
    }
    if minted(h, id) && id != h[i].id {
        let q = slot(h, id);
        let p = if q < i { q } else { q - 1 };
        assert(held_at(g, p, id));
        lemma_slot(g, p, id);
    }
}

/// What taking position `i` out of the ledger changes for one account.
pub proof fn lemma_remove_tokens(h: Seq<Holding>, i: int, a: AccountView)
    requires
        distinct_ids(h),
        0 <= i < h.len(),
    ensures
        tokens_of(h.remove(i), a) == if h[i].owner == a {
            without(tokens_of(h, a), h[i].id)
        } else {
            tokens_of(h, a)
        },
{
    let pre = h.subrange(0, i);
    let mid = seq![h[i]];
    let post = h.subrange(i + 1, h.len() as int);
    let id = h[i].id;
    assert(h =~= pre + mid + post);
    assert(h.remove(i) =~= pre + post);
    lemma_tokens_of_concat(pre, mid, a);
    lemma_tokens_of_concat(pre + mid, post, a);
    lemma_tokens_of_concat(pre, post, a);
    assert(mid.drop_last() =~= Seq::<Holding>::empty());
    assert(tokens_of(mid.drop_last(), a) =~= Seq::<Seq<u32>>::empty());
    if h[i].owner == a {
        let tp = tokens_of(pre, a);
        let tm = tokens_of(mid, a);
        let ts = tokens_of(post, a);
        assert(tm =~= seq![id]);
        lemma_tokens_of_contains(pre, a, id);
        if tp.contains(id) {
            let k = choose|k: int| held_at(pre, k, id) && pre[k].owner == a;
            assert(h[k].id == h[i].id);
        }
        lemma_tokens_of_contains(post, a, id);
        if ts.contains(id) {
            let k = choose|k: int| held_at(post, k, id) && post[k].owner == a;
            assert(h[i + 1 + k].id == h[i].id);
        }
        lemma_without_absent(tp, id);
        lemma_without_absent(ts, id);
        lemma_without_concat(tp, tm, id);
        lemma_without_concat(tp + tm, ts, id);
        assert(tm.drop_last() =~= Seq::<Seq<u32>>::empty());
        assert(tm.last() == id);
        assert(without(tm.drop_last(), id) =~= Seq::<Seq<u32>>::empty());
        assert(without(tm, id) =~= Seq::<Seq<u32>>::empty());
        assert(tp + Seq::<Seq<u32>>::empty() =~= tp);
    } else {
        assert(tokens_of(mid, a) =~= Seq::<Seq<u32>>::empty());
        assert(tokens_of(pre, a) + Seq::<Seq<u32>>::empty() =~= tokens_of(pre, a));
    }
}

/// What a change of hands does to one identifier.
pub proof fn lemma_move_holder(h: Seq<Holding>, moved: Seq<u32>, to: AccountView, id: Seq<u32>)
    requires
        distinct_ids(h),
        minted(h, moved),
    ensures
        distinct_ids(with_moved(h, moved, to)),
        with_moved(h, moved, to).len() == h.len(),
        minted(with_moved(h, moved, to), id) == minted(h, id),
        holder(with_moved(h, moved, to), id) == if id == moved {
            Some(to)
        } else {
            holder(h, id)
        },
        metadata_of(with_moved(h, moved, to), id) == metadata_of(h, id),
{
    let i = slot(h, moved);
    lemma_minted_slot(h, moved);
    let x = Holding { id: moved, owner: to, metadata: h[i].metadata };
    lemma_remove_holder(h, i, id);
    lemma_remove_holder(h, i, moved);
    lemma_push_holder(h.remove(i), x, id);
}

/// What a change of hands does to the tokens of one account: the token
/// leaves the list of its former holder and joins the end of the new one's.
pub proof fn lemma_move_tokens(h: Seq<Holding>, moved: Seq<u32>, to: AccountView, a: AccountView)
    requires
        distinct_ids(h),
        minted(h, moved),
    ensures
        tokens_of(with_moved(h, moved, to), a) == {
            let kept = if holder(h, moved) == Some(a) {
                without(tokens_of(h, a), moved)
            } else {
                tokens_of(h, a)
            };
            if to == a {
                kept.push(moved)
            } else {
                kept
            }
        },
{
    let i = slot(h, moved);
    lemma_minted_slot(h, moved);
    let x = Holding { id: moved, owner: to, metadata: h[i].metadata };
    lemma_remove_tokens(h, i, a);
    lemma_push_tokens(h.remove(i), x, a);
}

/// The ledger after the tokens `ids` were offered, one after the other, for
/// a move from `from` to `to`. A token changes hands where `from` holds it
/// at its turn; any other token is passed over.
pub open spec fn after_moves(
    h: Seq<Holding>,
    from: AccountView,
    to: AccountView,
    ids: Seq<Seq<u32>>,
) -> Seq<Holding>
    decreases ids.len(),
{
    if ids.len() == 0 {
        h
    } else {
        let prev = after_moves(h, from, to, ids.drop_last());
        if holder(prev, ids.last()) == Some(from) {
            with_moved(prev, ids.last(), to)
        } else {
            prev
        }
    }
}

/// Whether the token at position `k` of `ids` changes hands at its turn.
pub open spec fn moves_at(
    h: Seq<Holding>,
    from: AccountView,
    to: AccountView,
    ids: Seq<Seq<u32>>,
    k: int,
) -> bool {
    holder(after_moves(h, from, to, ids.take(k)), ids[k]) == Some(from)
}

/// Whether every token of `ids` changes hands at its turn.
pub open spec fn all_move(
    h: Seq<Holding>,
    from: AccountView,
    to: AccountView,
    ids: Seq<Seq<u32>>,
) -> bool {
    forall|k: int| 0 <= k < ids.len() ==> #[trigger] moves_at(h, from, to, ids, k)
}

/// Whether position `k` is the first whose token does not change hands.
pub open spec fn is_first_refused(
    h: Seq<Holding>,
    from: AccountView,
    to: AccountView,
    ids: Seq<Seq<u32>>,
    k: int,
) -> bool {
    &&& 0 <= k < ids.len()
    &&& !moves_at(h, from, to, ids, k)
    &&& forall|j: int| 0 <= j < k ==> #[trigger] moves_at(h, from, to, ids, j)
}

/// The first position whose token does not change hands, where there is one.
pub open spec fn first_refused(
    h: Seq<Holding>,
    from: AccountView,
    to: AccountView,
    ids: Seq<Seq<u32>>,
) -> int {
    choose|k: int| is_first_refused(h, from, to, ids, k)
}

/// What became of one entry of a transfer.
pub enum Outcome {
    /// The token changed hands.
    Moved(Seq<u32>),
    /// The sender did not hold these tokens.
    Refused(Seq<Seq<u32>>),
}

/// One transfer request: tokens to move from one account to another, all or
/// nothing when `atomic` is set.
pub struct Request {
    pub from: AccountView,
    pub to: AccountView,
    pub ids: Seq<Seq<u32>>,
    pub atomic: bool,
}

/// The outcome of each token of a request that is carried out token by token.
pub open spec fn step_outcomes(
    h: Seq<Holding>,
    from: AccountView,
    to: AccountView,
    ids: Seq<Seq<u32>>,
) -> Seq<Outcome> {
    Seq::new(
        ids.len(),
        |k: int|
            if moves_at(h, from, to, ids, k) {
                Outcome::Moved(ids[k])
            } else {
                Outcome::Refused(seq![ids[k]])
            },
    )
}

/// Whether a request is abandoned: it is atomic and one of its tokens is not
/// held by the sender at its turn.
pub open spec fn abandoned(h: Seq<Holding>, r: Request) -> bool {
    r.atomic && !all_move(h, r.from, r.to, r.ids)
}

/// The ledger after one request. An abandoned request leaves it as it was.
pub open spec fn request_state(h: Seq<Holding>, r: Request) -> Seq<Holding> {
    if abandoned(h, r) {
        h
    } else {
        after_moves(h, r.from, r.to, r.ids)
    }
}

/// What one request reports: an outcome for each of its tokens, or, where it
/// is abandoned, the one refusal that stopped it.
pub open spec fn request_outcomes(h: Seq<Holding>, r: Request) -> Seq<Outcome> {
    if abandoned(h, r) {
        seq![Outcome::Refused(seq![r.ids[first_refused(h, r.from, r.to, r.ids)]])]
    } else {
        step_outcomes(h, r.from, r.to, r.ids)
    }
}

/// The ledger after a batch of requests, each carried out on what the ones
/// before it left.
pub open spec fn batch_state(h: Seq<Holding>, rs: Seq<Request>) -> Seq<Holding>
    decreases rs.len(),
{
    if rs.len() == 0 {
        h
    } else {
        request_state(batch_state(h, rs.drop_last()), rs.last())
    }
}

/// What a batch of requests reports: the reports of its requests, in order.
pub open spec fn batch_outcomes(h: Seq<Holding>, rs: Seq<Request>) -> Seq<Outcome>
    decreases rs.len(),
{
    if rs.len() == 0 {
        Seq::empty()
    } else {
        batch_outcomes(h, rs.drop_last()) + request_outcomes(
            batch_state(h, rs.drop_last()),
            rs.last(),
        )
    }
}

/// Whether a token moves at its turn depends only on the tokens before it.
pub proof fn lemma_moves_at_prefix(
    h: Seq<Holding>,
    from: AccountView,
    to: AccountView,
    ids: Seq<Seq<u32>>,
    n: int,
    k: int,
)
    requires
        0 <= k < n <= ids.len(),
    ensures
        moves_at(h, from, to, ids.take(n), k) == moves_at(h, from, to, ids, k),
{
    assert(ids.take(n).take(k) =~= ids.take(k));
}

/// Offering one more token: the step from a prefix of `ids` to the next.
pub proof fn lemma_after_moves_step(
    h: Seq<Holding>,
    from: AccountView,
    to: AccountView,
    ids: Seq<Seq<u32>>,
    k: int,
)
    requires
        0 <= k < ids.len(),
    ensures
        after_moves(h, from, to, ids.take(k + 1)) == if moves_at(h, from, to, ids, k) {
            with_moved(after_moves(h, from, to, ids.take(k)), ids[k], to)
        } else {
            after_moves(h, from, to, ids.take(k))
        },
{
    assert(ids.take(k + 1).drop_last() =~= ids.take(k));
    assert(ids.take(k + 1).last() == ids[k]);
}

/// Moves keep the ledger sound: the same tokens are minted, with the same
/// metadata, and none is recorded twice.
pub proof fn lemma_after_moves_keeps(
    h: Seq<Holding>,
    from: AccountView,
    to: AccountView,
    ids: Seq<Seq<u32>>,
    id: Seq<u32>,
)
    requires
        distinct_ids(h),
    ensures
        distinct_ids(after_moves(h, from, to, ids)),
        after_moves(h, from, to, ids).len() == h.len(),
        minted(after_moves(h, from, to, ids), id) == minted(h, id),
        metadata_of(after_moves(h, from, to, ids), id) == metadata_of(h, id),
        !ids.contains(id) ==> holder(after_moves(h, from, to, ids), id) == holder(h, id),
    decreases ids.len(),
{
    if ids.len() > 0 {
        let prev = after_moves(h, from, to, ids.drop_last());
        lemma_after_moves_keeps(h, from, to, ids.drop_last(), id);
        if holder(prev, ids.last()) == Some(from) {
            lemma_move_holder(prev, ids.last(), to, id);
        }
        if !ids.contains(id) {
            assert(ids.last() == ids[ids.len() - 1]);
            assert forall|k: int| 0 <= k < ids.drop_last().len() implies ids.drop_last()[k]
                != id by {
                assert(ids[k] == ids.drop_last()[k]);
            }
        }
    }
}

/// Where every token of `ids` moved at its turn, the tokens of `ids` are
/// with `to` and every other token is where it was.
pub proof fn lemma_holder_after_all_moved(
    h: Seq<Holding>,
    from: AccountView,
    to: AccountView,
    ids: Seq<Seq<u32>>,
    id: Seq<u32>,
)
    requires
        distinct_ids(h),
        all_move(h, from, to, ids),
    ensures
        holder(after_moves(h, from, to, ids), id) == if ids.contains(id) {
            Some(to)
        } else {
            holder(h, id)
        },
    decreases ids.len(),
{
    if ids.len() == 0 {
        assert(!ids.contains(id));
    } else {
        let rest = ids.drop_last();
        let last = ids.len() - 1;
        let prev = after_moves(h, from, to, rest);
        assert forall|k: int| 0 <= k < rest.len() implies #[trigger] moves_at(
            h,
            from,
            to,
            rest,
            k,
        ) by {
            assert(moves_at(h, from, to, ids, k));
            assert(rest =~= ids.take(last));
            lemma_moves_at_prefix(h, from, to, ids, last, k);
        }
        lemma_holder_after_all_moved(h, from, to, rest, id);
        assert(moves_at(h, from, to, ids, last));
        assert(ids.take(last) =~= rest);
        lemma_after_moves_keeps(h, from, to, rest, id);
        lemma_move_holder(prev, ids.last(), to, id);
        if rest.contains(id) {
            let k = choose|k: int| 0 <= k < rest.len() && rest[k] == id;
            assert(ids[k] == id);
        }
        if ids.contains(id) && id != ids.last() {
            let k = choose|k: int| 0 <= k < ids.len() && ids[k] == id;
            assert(rest[k] == id);
        }
        if id == ids.last() {
            assert(ids[last] == id);
        }
    }
}

/// There is at most one first refusal.
pub proof fn lemma_first_refused(
    h: Seq<Holding>,
    from: AccountView,
    to: AccountView,
    ids: Seq<Seq<u32>>,
    k: int,
)
    requires
        is_first_refused(h, from, to, ids, k),
    ensures
        !all_move(h, from, to, ids),
        first_refused(h, from, to, ids) == k,
{
    let c = first_refused(h, from, to, ids);
    assert(is_first_refused(h, from, to, ids, c));
    if c < k {
        assert(moves_at(h, from, to, ids, c));
    } else if k < c {
        assert(moves_at(h, from, to, ids, k));
    }
}

/// An atomic request for one token, carried out alone: the token changes
/// hands exactly when the sender holds it, and the one report says which.
pub proof fn lemma_single_token_request(h: Seq<Holding>, r: Request)
    requires
        r.atomic,
        r.ids.len() == 1,
    ensures
        batch_state(h, seq![r]) == request_state(h, r),
        batch_outcomes(h, seq![r]) == request_outcomes(h, r),
        request_outcomes(h, r).len() == 1,
        holder(h, r.ids[0]) == Some(r.from) ==> request_state(h, r) == with_moved(
            h,
            r.ids[0],
            r.to,
        ) && request_outcomes(h, r)[0] == Outcome::Moved(r.ids[0]),
        holder(h, r.ids[0]) != Some(r.from) ==> request_state(h, r) == h && request_outcomes(
            h,
            r,
        )[0] == Outcome::Refused(seq![r.ids[0]]),
{
    let rs = seq![r];
    assert(rs.drop_last() =~= Seq::<Request>::empty());
    assert(batch_state(h, rs.drop_last()) == h);
    assert(batch_outcomes(h, rs.drop_last()) =~= Seq::<Outcome>::empty());
    assert(rs.last() == r);
    assert(Seq::<Outcome>::empty() + request_outcomes(h, r) =~= request_outcomes(h, r));
    assert(r.ids.take(0) =~= Seq::<Seq<u32>>::empty());
    assert(r.ids.drop_last() =~= Seq::<Seq<u32>>::empty());
    assert(r.ids.last() == r.ids[0]);
    assert(after_moves(h, r.from, r.to, r.ids.take(0)) == h);
    assert(moves_at(h, r.from, r.to, r.ids, 0) == (holder(h, r.ids[0]) == Some(r.from)));
    if holder(h, r.ids[0]) == Some(r.from) {
        assert(all_move(h, r.from, r.to, r.ids));
    } else {
        assert(is_first_refused(h, r.from, r.to, r.ids, 0));
        lemma_first_refused(h, r.from, r.to, r.ids, 0);
    }
}

/// The identifiers that are currently minted.
pub open spec fn minted_ids(h: Seq<Holding>) -> Set<Seq<u32>> {
    Set::new(|id: Seq<u32>| minted(h, id))
}

/// In a ledger without repeated identifiers, the minted identifiers are as
/// many as the ledger has entries.
pub proof fn lemma_minted_count(h: Seq<Holding>)
    requires
        distinct_ids(h),
    ensures
        minted_ids(h).finite(),
        minted_ids(h).len() == h.len(),
{
    let ids = h.map_values(|x: Holding| x.id);
    assert forall|i: int, j: int| 0 <= i < ids.len() && 0 <= j < ids.len() && i != j implies ids[i]
        != ids[j] by {
        if i < j {
            assert(h[i].id != h[j].id);
        } else {
            assert(h[j].id != h[i].id);
        }
    }
    assert forall|id: Seq<u32>| ids.to_set().contains(id) == minted_ids(h).contains(id) by {
        if ids.contains(id) {
            let i = choose|i: int| 0 <= i < ids.len() && ids[i] == id;
            assert(held_at(h, i, id));
        }
        if minted(h, id) {
            let i = slot(h, id);
            assert(held_at(h, i, id));
            assert(ids[i] == id);
        }
    }
    assert(ids.to_set() =~= minted_ids(h));
    ids.unique_seq_to_set();
    vstd::seq_lib::seq_to_set_is_finite(ids);
}

/// No account lists a token twice.
pub proof fn lemma_tokens_of_distinct(h: Seq<Holding>, a: AccountView)
    requires
        distinct_ids(h),
    ensures
        tokens_of(h, a).no_duplicates(),
    decreases h.len(),
{
    if h.len() > 0 {
        let rest = h.drop_last();
        let listed = tokens_of(rest, a);
        lemma_tokens_of_distinct(rest, a);
        if h.last().owner == a {
            lemma_tokens_of_contains(rest, a, h.last().id);
            if listed.contains(h.last().id) {
                let k = choose|k: int| held_at(rest, k, h.last().id) && rest[k].owner == a;
                assert(h[k].id != h[h.len() - 1].id);
            }
            let t = tokens_of(h, a);
            assert forall|i: int, j: int| 0 <= i < t.len() && 0 <= j < t.len() && i != j implies t[i]
                != t[j] by {
                if i < listed.len() && j < listed.len() {
                    assert(listed[i] != listed[j]);
                } else if i < listed.len() {
                    assert(listed.contains(listed[i]));
                } else {
                    assert(listed.contains(listed[j]));
                }
            }
        }
    }
}

/// No token is held twice: if two accounts list a token, they are one
/// account, that account is the holder of the token, and the token stands
/// once in its list.
pub proof fn lemma_single_holder(h: Seq<Holding>, id: Seq<u32>, a: AccountView, b: AccountView)
    requires
        distinct_ids(h),
        tokens_of(h, a).contains(id),
        tokens_of(h, b).contains(id),
    ensures
        a == b,
        holder(h, id) == Some(a),
        tokens_of(h, a).no_duplicates(),
{
    lemma_tokens_of_holder(h, a, id);
    lemma_tokens_of_holder(h, b, id);
    lemma_tokens_of_distinct(h, a);
}

/// A token that no account lists is not minted, and a minted token is
/// listed by its holder: a token is held by no account or by one.
pub proof fn lemma_holder_lists_token(h: Seq<Holding>, id: Seq<u32>)
    requires
        distinct_ids(h),
    ensures
        match holder(h, id) {
            Some(a) => minted(h, id) && tokens_of(h, a).contains(id),
            None => !minted(h, id) && forall|a: AccountView| !tokens_of(h, a).contains(id),
        },
{
    match holder(h, id) {
        Some(a) => {
            lemma_tokens_of_holder(h, a, id);
        },
        None => {
            assert forall|a: AccountView| !tokens_of(h, a).contains(id) by {
                lemma_tokens_of_holder(h, a, id);
            }
        },
    }
}

/// All or nothing: an atomic request in which the sender does not hold some
/// token at its turn leaves the ledger exactly as it was, so no token of the
/// request changes its holder, and it reports a single refusal.
pub proof fn lemma_atomic_all_or_nothing(h: Seq<Holding>, r: Request)
    requires
        distinct_ids(h),
        r.atomic,
        !all_move(h, r.from, r.to, r.ids),
    ensures
        request_state(h, r) == h,
        forall|id: Seq<u32>| holder(request_state(h, r), id) == holder(h, id),
        request_outcomes(h, r).len() == 1,
        request_outcomes(h, r)[0] is Refused,
{
}

/// A request that is carried out moves every token that its sender holds at
/// its turn: at the end each such token is with the recipient.
pub proof fn lemma_moved_tokens_arrive(h: Seq<Holding>, r: Request, k: int)
    requires
        distinct_ids(h),
        !abandoned(h, r),
        0 <= k < r.ids.len(),
        moves_at(h, r.from, r.to, r.ids, k),
    ensures
        request_outcomes(h, r)[k] == Outcome::Moved(r.ids[k]),
        holder(request_state(h, r), r.ids[k]) == Some(r.to),
{
    lemma_moved_stays(h, r.from, r.to, r.ids, k);
}

/// A token that moved at its turn is with the recipient after the whole list
/// was offered.
pub proof fn lemma_moved_stays(
    h: Seq<Holding>,
    from: AccountView,
    to: AccountView,
    ids: Seq<Seq<u32>>,
    k: int,
)
    requires
        distinct_ids(h),
        0 <= k < ids.len(),
        moves_at(h, from, to, ids, k),
    ensures
        holder(after_moves(h, from, to, ids), ids[k]) == Some(to),
    decreases ids.len(),
{
    let rest = ids.drop_last();
    let last = ids.len() - 1;
    let prev = after_moves(h, from, to, rest);
    lemma_after_moves_keeps(h, from, to, rest, ids[k]);
    assert(rest =~= ids.take(last));
    if k == last {
        lemma_move_holder(prev, ids[k], to, ids[k]);
    } else {
        lemma_moves_at_prefix(h, from, to, ids, last, k);
        lemma_moved_stays(h, from, to, rest, k);
        assert(rest[k] == ids[k]);
        if holder(prev, ids.last()) == Some(from) {
            lemma_move_holder(prev, ids.last(), to, ids[k]);
        }
    }
}

/// A request that is carried out passes over every token that its sender
/// does not hold at its turn: that step changes nothing and is reported as
/// a refusal of that token.
pub proof fn lemma_refused_tokens_skipped(h: Seq<Holding>, r: Request, k: int)
    requires
        !abandoned(h, r),
        0 <= k < r.ids.len(),
        !moves_at(h, r.from, r.to, r.ids, k),
    ensures
        request_outcomes(h, r)[k] == Outcome::Refused(seq![r.ids[k]]),
        after_moves(h, r.from, r.to, r.ids.take(k + 1)) == after_moves(
            h,
            r.from,
            r.to,
            r.ids.take(k),
        ),
{
    lemma_after_moves_step(h, r.from, r.to, r.ids, k);
}

/// A request touches only the tokens it names: every other token keeps its
/// holder, and every token keeps its metadata.
pub proof fn lemma_request_frame(h: Seq<Holding>, r: Request, id: Seq<u32>)
    requires
        distinct_ids(h),
    ensures
        distinct_ids(request_state(h, r)),
        request_state(h, r).len() == h.len(),
        minted(request_state(h, r), id) == minted(h, id),
        metadata_of(request_state(h, r), id) == metadata_of(h, id),
        !r.ids.contains(id) ==> holder(request_state(h, r), id) == holder(h, id),
{
    lemma_after_moves_keeps(h, r.from, r.to, r.ids, id);
}

} // verus!
