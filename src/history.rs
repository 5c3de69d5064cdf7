use vstd::prelude::*;

use crate::manager::ManagerView;

verus! {

/// One operation of the manager that may change its state.
pub enum Action {
    Create(Seq<char>),
    Comment(usize, Seq<char>),
    Like(usize),
    Dislike(usize),
    Delete(usize),
}

/// The state of a newly made manager.
pub open spec fn fresh() -> ManagerView {
    ManagerView { posts: Map::empty(), next_id: 1 }
}

/// The state after `a`; an operation on a missing post changes nothing.
pub open spec fn step(m: ManagerView, a: Action) -> ManagerView {
    match a {
        Action::Create(content) => m.created(content),
        Action::Comment(id, text) => if m.posts.contains_key(id) { m.commented(id, text) } else { m },
        Action::Like(id) => if m.posts.contains_key(id) { m.liked(id) } else { m },
        Action::Dislike(id) => if m.posts.contains_key(id) { m.disliked(id) } else { m },
        Action::Delete(id) => if m.posts.contains_key(id) { m.deleted(id) } else { m },
    }
}

/// The state after the actions `acts`, first to last.
pub open spec fn run(m: ManagerView, acts: Seq<Action>) -> ManagerView
    decreases acts.len(),
{
    if acts.len() == 0 {
        m
    } else {
        step(run(m, acts.drop_last()), acts.last())
    }
}

/// How many of `acts` create a post.
pub open spec fn creates(acts: Seq<Action>) -> nat
    decreases acts.len(),
{
    if acts.len() == 0 {
        0
    } else {
        creates(acts.drop_last()) + if acts.last() is Create { 1nat } else { 0nat }
    }
}

proof fn lemma_run_next_id(m: ManagerView, acts: Seq<Action>)
    ensures
        run(m, acts).next_id == m.next_id + creates(acts),
    decreases acts.len(),
{
    if acts.len() > 0 {
        lemma_run_next_id(m, acts.drop_last());
    }
}

/// Starting from a new manager, the identifier of the next post is one more
/// than the number of posts created so far, whatever else happened; so the
/// posts created get 1, 2, 3, ... in order.
pub proof fn lemma_ids_follow_creates(acts: Seq<Action>)
    ensures
        run(fresh(), acts).next_id == creates(acts) + 1,
        forall|i: int| 0 <= i < acts.len() && #[trigger] acts[i] is Create
            ==> run(fresh(), acts.take(i)).next_id == creates(acts.take(i)) + 1
                && creates(acts.take(i + 1)) == creates(acts.take(i)) + 1,
{
    lemma_run_next_id(fresh(), acts);
    assert forall|i: int| 0 <= i < acts.len() && #[trigger] acts[i] is Create
        implies run(fresh(), acts.take(i)).next_id == creates(acts.take(i)) + 1
            && creates(acts.take(i + 1)) == creates(acts.take(i)) + 1 by {
        lemma_run_next_id(fresh(), acts.take(i));
        assert(acts.take(i + 1).drop_last() =~= acts.take(i));
    }
}

proof fn lemma_creates_prefix(acts: Seq<Action>, i: int)
    requires
        0 <= i <= acts.len(),
    ensures
        creates(acts.take(i)) <= creates(acts),
    decreases acts.len(),
{
    if i < acts.len() {
        lemma_creates_prefix(acts.drop_last(), i);
        assert(acts.drop_last().take(i) =~= acts.take(i));
    } else {
        assert(acts.take(i) =~= acts);
    }
}

proof fn lemma_absent_stays_absent(m: ManagerView, x: usize, acts: Seq<Action>)
    requires
        !m.posts.contains_key(x),
        (x as nat) < m.next_id,
        m.next_id + creates(acts) <= usize::MAX,
    ensures
        !run(m, acts).posts.contains_key(x),
        (x as nat) < run(m, acts).next_id,
    decreases acts.len(),
{
    if acts.len() > 0 {
        lemma_absent_stays_absent(m, x, acts.drop_last());
        lemma_run_next_id(m, acts.drop_last());
    }
}

/// Every operation keeps a state well formed, as long as the counter stays
/// within the range of identifiers.
pub proof fn lemma_run_preserves_wf(m: ManagerView, acts: Seq<Action>)
    requires
        m.wf(),
        m.next_id + creates(acts) <= usize::MAX,
    ensures
        run(m, acts).wf(),
    decreases acts.len(),
{
    if acts.len() > 0 {
        lemma_run_preserves_wf(m, acts.drop_last());
        lemma_run_next_id(m, acts.drop_last());
    }
}

/// Once the post `x` is deleted, no later operations bring an entry under `x`
/// back, and no later post is given `x` (as long as the counter stays within
/// the range of identifiers).
pub proof fn lemma_deleted_id_never_reassigned(m: ManagerView, x: usize, acts: Seq<Action>)
    requires
        m.wf(),
        m.posts.contains_key(x),
        m.next_id + creates(acts) <= usize::MAX,
    ensures
        !run(m.deleted(x), acts).posts.contains_key(x),
        forall|i: int| 0 <= i <= acts.len() ==> run(m.deleted(x), #[trigger] acts.take(i)).next_id != x,
{
    lemma_absent_stays_absent(m.deleted(x), x, acts);
    assert forall|i: int| 0 <= i <= acts.len() implies run(m.deleted(x), #[trigger] acts.take(i)).next_id != x by {
        lemma_creates_prefix(acts, i);
        lemma_absent_stays_absent(m.deleted(x), x, acts.take(i));
    }
}

} // verus!
