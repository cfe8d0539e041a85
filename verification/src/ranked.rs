//! The double-ended priority queue that backs a side book.
//!
//! The queue is `priority_queue::DoublePriorityQueue`, holding venue tags
//! ranked by four integers. Its contents are modelled as a map from each tag
//! in the queue to the rank stored for it; the functions below state, in
//! terms of that map, what each queue operation does. None of these
//! statements is proved here: they are read off the queue's source.

use priority_queue::DoublePriorityQueue;
use vstd::prelude::*;

verus! {

/// The priority of one entry: four integers compared left to right.
pub type Rank = (i128, u128, i128, u128);

/// The queue type used by a side book: venue tags ranked by `Rank`.
pub type RankQueue = DoublePriorityQueue<u8, Rank>;

/// `priority_queue::DoublePriorityQueue`, carried as a value that only the
/// functions below look into.
#[verifier::external_type_specification]
#[verifier::external_body]
#[verifier::reject_recursive_types(I)]
#[verifier::reject_recursive_types(P)]
#[verifier::reject_recursive_types(H)]
pub struct ExDoublePriorityQueue<I, P, H>(DoublePriorityQueue<I, P, H>);

/// What a queue holds: for each tag in it, the rank it is stored with.
pub uninterp spec fn queue_entries(q: RankQueue) -> Map<u8, Rank>;

/// The contents of a queue that holds nothing.
pub open spec fn no_entries() -> Map<u8, Rank> {
    Map::empty()
}

/// "Less than" on ranks: left to right, as tuples are ordered.
pub open spec fn rank_lt(a: Rank, b: Rank) -> bool {
    a.0 < b.0 || (a.0 == b.0 && (a.1 < b.1 || (a.1 == b.1 && (a.2 < b.2 || (a.2 == b.2 && a.3
        < b.3)))))
}

/// "Less than or equal" on ranks.
pub open spec fn rank_le(a: Rank, b: Rank) -> bool {
    a == b || rank_lt(a, b)
}

/// `DoublePriorityQueue::new`: a queue that holds nothing.
#[verifier::external_body]
pub(crate) fn queue_new() -> (q: RankQueue)
    ensures
        queue_entries(q) == no_entries(),
        queue_entries(q).dom().finite(),
{
    DoublePriorityQueue::new()
}

/// `Clone::clone` of the queue: a queue with the same contents.
#[verifier::external_body]
pub(crate) fn queue_clone(q: &RankQueue) -> (copy: RankQueue)
    ensures
        queue_entries(copy) == queue_entries(*q),
{
    q.clone()
}

/// `DoublePriorityQueue::len`: the number of tags in the queue.
#[verifier::external_body]
pub(crate) fn queue_len(q: &RankQueue) -> (n: usize)
    ensures
        n == queue_entries(*q).len(),
{
    q.len()
}

/// `DoublePriorityQueue::push`: stores `rank` under `tag`, replacing the rank
/// that `tag` had if it was present, and returns that earlier rank.
#[verifier::external_body]
pub(crate) fn queue_push(q: &mut RankQueue, tag: u8, rank: Rank) -> (prior: Option<Rank>)
    ensures
        queue_entries(*final(q)) == queue_entries(*old(q)).insert(tag, rank),
        prior == if queue_entries(*old(q)).dom().contains(tag) {
            Some(queue_entries(*old(q))[tag])
        } else {
            None
        },
{
    q.push(tag, rank)
}

/// `DoublePriorityQueue::peek_max`, copied out of its references: a tag whose
/// rank no other rank in the queue exceeds, with that rank; nothing where
/// the queue is empty. Which of several tags of the same greatest rank is
/// given is left open.
#[verifier::external_body]
pub(crate) fn queue_peek_max(q: &RankQueue) -> (top: Option<(u8, Rank)>)
    ensures
        top is None <==> queue_entries(*q) == no_entries(),
        top matches Some(e) ==> queue_entries(*q).dom().contains(e.0),
        top matches Some(e) ==> queue_entries(*q)[e.0] == e.1,
        top matches Some(e) ==> forall|t: u8| #[trigger]
            queue_entries(*q).dom().contains(t) ==> rank_le(queue_entries(*q)[t], e.1),
{
    q.peek_max().map(|(tag, rank)| (*tag, *rank))
}

/// `DoublePriorityQueue::pop_max`: removes a tag whose rank no other rank in
/// the queue exceeds and returns it with that rank; on an empty queue it
/// returns nothing and changes nothing. Which of several tags of the same
/// greatest rank leaves is left open.
#[verifier::external_body]
pub(crate) fn queue_pop_max(q: &mut RankQueue) -> (top: Option<(u8, Rank)>)
    ensures
        top is None <==> queue_entries(*old(q)) == no_entries(),
        top is None ==> queue_entries(*final(q)) == queue_entries(*old(q)),
        top matches Some(e) ==> queue_entries(*old(q)).dom().contains(e.0),
        top matches Some(e) ==> queue_entries(*old(q))[e.0] == e.1,
        top matches Some(e) ==> queue_entries(*final(q)) == queue_entries(*old(q)).remove(e.0),
        top matches Some(e) ==> forall|t: u8| #[trigger]
            queue_entries(*old(q)).dom().contains(t) ==> rank_le(queue_entries(*old(q))[t], e.1),
{
    q.pop_max()
}

/// `DoublePriorityQueue::pop_min`: removes a tag whose rank exceeds no other
/// rank in the queue and returns it with that rank; on an empty queue it
/// returns nothing and changes nothing. Which of several tags of the same
/// least rank leaves is left open.
#[verifier::external_body]
pub(crate) fn queue_pop_min(q: &mut RankQueue) -> (bottom: Option<(u8, Rank)>)
    ensures
        bottom is None <==> queue_entries(*old(q)) == no_entries(),
        bottom is None ==> queue_entries(*final(q)) == queue_entries(*old(q)),
        bottom matches Some(e) ==> queue_entries(*old(q)).dom().contains(e.0),
        bottom matches Some(e) ==> queue_entries(*old(q))[e.0] == e.1,
        bottom matches Some(e) ==> queue_entries(*final(q)) == queue_entries(*old(q)).remove(e.0),
        bottom matches Some(e) ==> forall|t: u8| #[trigger]
            queue_entries(*old(q)).dom().contains(t) ==> rank_le(e.1, queue_entries(*old(q))[t]),
{
    q.pop_min()
}

/// Ranks are totally ordered: any two compare, and the order is transitive
/// and antisymmetric.
pub proof fn lemma_rank_total(a: Rank, b: Rank, c: Rank)
    ensures
        rank_le(a, b) || rank_le(b, a),
        rank_le(a, b) && rank_le(b, c) ==> rank_le(a, c),
        rank_le(a, b) && rank_le(b, a) ==> a == b,
        rank_lt(a, b) <==> !rank_le(b, a),
{
}

} // verus!
