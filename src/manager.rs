use std::collections::HashMap;

use vstd::prelude::*;
use vstd::std_specs::iter::IteratorSpec;

use crate::post::{share_link_of, Post, PostView};

verus! {

broadcast use vstd::std_specs::hash::group_hash_axioms;

/// Why an operation on one post could not be carried out.
#[derive(Debug, Clone, Copy, PartialEq, Eq, Structural)]
pub enum PostError {
    /// No post has this identifier.
    NotFound(usize),
}

/// What a manager holds, as mathematical values.
pub struct ManagerView {
    pub posts: Map<usize, PostView>,
    pub next_id: nat,
}

impl ManagerView {
    /// Identifiers are positive, every post is filed under its own identifier,
    /// and every identifier in use lies below the next one to be assigned.
    pub open spec fn wf(self) -> bool {
        &&& self.next_id >= 1
        &&& forall|k: usize| #[trigger] self.posts.contains_key(k)
            ==> 1 <= k && (k as nat) < self.next_id && self.posts[k].id == k as nat
    }

    /// The state after a post with `content` is created under the next identifier.
    pub open spec fn created(self, content: Seq<char>) -> ManagerView {
        ManagerView {
            posts: self.posts.insert(
                self.next_id as usize,
                PostView {
                    id: self.next_id,
                    content,
                    comments: Seq::empty(),
                    likes: 0,
                    dislikes: 0,
                },
            ),
            next_id: self.next_id + 1,
        }
    }

    /// The state after the post `id` is replaced by `p`.
    pub open spec fn with_post(self, id: usize, p: PostView) -> ManagerView {
        ManagerView { posts: self.posts.insert(id, p), ..self }
    }

    /// The state after `comment` is appended to the comments of post `id`.
    pub open spec fn commented(self, id: usize, comment: Seq<char>) -> ManagerView {
        self.with_post(id, PostView { comments: self.posts[id].comments.push(comment), ..self.posts[id] })
    }

    /// The state after post `id` gets one more like.
    pub open spec fn liked(self, id: usize) -> ManagerView {
        self.with_post(id, PostView { likes: self.posts[id].likes + 1, ..self.posts[id] })
    }

    /// The state after post `id` gets one more dislike.
    pub open spec fn disliked(self, id: usize) -> ManagerView {
        self.with_post(id, PostView { dislikes: self.posts[id].dislikes + 1, ..self.posts[id] })
    }

    /// The state after post `id` is removed.
    pub open spec fn deleted(self, id: usize) -> ManagerView {
        ManagerView { posts: self.posts.remove(id), ..self }
    }
}

/// `es` names every entry of `posts` exactly once, with its key and its post.
pub open spec fn lists_entries(posts: Map<usize, PostView>, es: Seq<(usize, PostView)>) -> bool {
    &&& es.len() == posts.dom().len()
    &&& forall|i: int| 0 <= i < es.len() ==> {
        let e = #[trigger] es[i];
        posts.contains_key(e.0) && posts[e.0] == e.1
    }
    &&& forall|k: usize| #[trigger] posts.contains_key(k)
        ==> exists|i: int| 0 <= i < es.len() && es[i].0 == k
    &&& forall|i: int, j: int| 0 <= i < es.len() && 0 <= j < es.len() && i != j
        ==> #[trigger] es[i].0 != #[trigger] es[j].0
}

/// Saved entries as mathematical values.
pub open spec fn entry_views(entries: Seq<(usize, Post)>) -> Seq<(usize, PostView)> {
    entries.map_values(|e: (usize, Post)| (e.0, e.1@))
}

/// Saved entries and a saved counter that describe a well-formed state: each
/// entry is filed under its post's own positive identifier, below the counter.
pub open spec fn restorable(entries: Seq<(usize, PostView)>, next_id: nat) -> bool {
    &&& next_id >= 1
    &&& forall|i: int| 0 <= i < entries.len() ==> {
        let e = #[trigger] entries[i];
        1 <= e.0 && (e.0 as nat) < next_id && e.1.id == e.0 as nat
    }
}

/// The map that saved entries describe; a later entry under the same key wins.
pub open spec fn entries_map(entries: Seq<(usize, PostView)>) -> Map<usize, PostView>
    decreases entries.len(),
{
    if entries.len() == 0 {
        Map::empty()
    } else {
        entries_map(entries.drop_last()).insert(entries.last().0, entries.last().1)
    }
}

proof fn lemma_entries_map(entries: Seq<(usize, PostView)>)
    ensures
        forall|k: usize| #[trigger] entries_map(entries).contains_key(k)
            ==> exists|i: int| 0 <= i < entries.len() && entries[i].0 == k,
        forall|i: int| 0 <= i < entries.len()
            && (forall|j: int| i < j < entries.len() ==> entries[j].0 != entries[i].0)
            ==> entries_map(entries).contains_key(#[trigger] entries[i].0)
                && entries_map(entries)[entries[i].0] == entries[i].1,
    decreases entries.len(),
{
    if entries.len() > 0 {
        let init = entries.drop_last();
        lemma_entries_map(init);
        assert(entries_map(entries) == entries_map(init).insert(entries.last().0, entries.last().1));
        assert forall|k: usize| #[trigger] entries_map(entries).contains_key(k)
            implies exists|i: int| 0 <= i < entries.len() && entries[i].0 == k by {
            if k != entries.last().0 {
                assert(entries_map(init).contains_key(k));
                let i = choose|i: int| 0 <= i < init.len() && init[i].0 == k;
                assert(entries[i].0 == k);
            } else {
                assert(entries[entries.len() - 1].0 == k);
            }
        }
        assert forall|i: int| 0 <= i < entries.len()
            && (forall|j: int| i < j < entries.len() ==> entries[j].0 != entries[i].0)
            implies entries_map(entries).contains_key(#[trigger] entries[i].0)
                && entries_map(entries)[entries[i].0] == entries[i].1 by {
            if i < init.len() {
                assert(entries[i] == init[i]);
                assert(entries[entries.len() - 1].0 != entries[i].0);
                assert forall|j: int| i < j < init.len() implies init[j].0 != init[i].0 by {
                    assert(init[j] == entries[j]);
                }
            }
        }
    }
}

/// Saving a state as the listing of its entries and its counter, and
/// restoring from what was saved, gives back the same posts and counter.
pub proof fn lemma_snapshot_round_trip(m: ManagerView, es: Seq<(usize, PostView)>)
    requires
        lists_entries(m.posts, es),
    ensures
        (ManagerView { posts: entries_map(es), next_id: m.next_id }) == m,
{
    lemma_entries_map(es);
    assert forall|k: usize| #[trigger] m.posts.contains_key(k)
        implies entries_map(es).contains_key(k) && entries_map(es)[k] == m.posts[k] by {
        let i = choose|i: int| 0 <= i < es.len() && es[i].0 == k;
        assert forall|j: int| i < j < es.len() implies es[j].0 != es[i].0 by {
            assert(es[i].0 != es[j].0);
        }
        assert(es[i].0 == k);
    }
    assert forall|k: usize| #[trigger] entries_map(es).contains_key(k) implies m.posts.contains_key(k) by {
        let i = choose|i: int| 0 <= i < es.len() && es[i].0 == k;
        assert(es[i].0 == k);
    }
    assert(entries_map(es) =~= m.posts);
}

/// The posts, keyed by identifier, and the identifier the next post gets.
pub struct PostManager {
    posts: HashMap<usize, Post>,
    next_id: usize,
}

impl View for PostManager {
    type V = ManagerView;

    closed spec fn view(&self) -> ManagerView {
        ManagerView {
            posts: self.posts@.map_values(|p: Post| p@),
            next_id: self.next_id as nat,
        }
    }
}

impl PostManager {
    /// An empty manager whose first post gets identifier 1.
    pub fn new() -> (r: PostManager)
        ensures
            r@ == (ManagerView { posts: Map::empty(), next_id: 1 }),
            r@.wf(),
    {
        let r = PostManager { posts: HashMap::new(), next_id: 1 };
        assert(r@.posts =~= Map::empty());
        r
    }

    /// The identifier that the next post will get.
    pub fn next_id(&self) -> (r: usize)
        ensures
            r as nat == self@.next_id,
    {
        self.next_id
    }

    /// The post with identifier `id`, if there is one.
    pub fn post(&self, id: usize) -> (r: Option<&Post>)
        ensures
            match r {
                Some(p) => self@.posts.contains_key(id) && p@ == self@.posts[id],
                None => !self@.posts.contains_key(id),
            },
    {
        self.posts.get(&id)
    }

    /// Creates a post with `content` under the next identifier and returns
    /// that identifier.
    pub fn create_post(&mut self, content: String) -> (id: usize)
        requires
            old(self)@.next_id < usize::MAX,
        ensures
            id as nat == old(self)@.next_id,
            final(self)@ == old(self)@.created(content@),
            old(self)@.wf() ==> final(self)@.wf(),
    {
        let id = self.next_id;
        let post = Post::new(id, content);
        self.posts.insert(id, post);
        self.next_id = id + 1;
        assert(self@.posts =~= old(self)@.created(content@).posts);
        id
    }

    /// Appends `comment` to the post `id`.
    pub fn add_comment(&mut self, id: usize, comment: String) -> (r: Result<(), PostError>)
        ensures
            old(self)@.wf() ==> final(self)@.wf(),
            old(self)@.posts.contains_key(id) ==> r is Ok && final(self)@ == old(self)@.commented(id, comment@),
            !old(self)@.posts.contains_key(id) ==> r == Err::<(), PostError>(PostError::NotFound(id))
                && final(self)@ == old(self)@,
    {
        match self.posts.remove(&id) {
            Some(mut p) => {
                p.add_comment(comment);
                self.posts.insert(id, p);
                assert(self@.posts =~= old(self)@.commented(id, comment@).posts);
                Ok(())
            },
            None => {
                assert(self@.posts =~= old(self)@.posts);
                Err(PostError::NotFound(id))
            },
        }
    }

    /// Adds one like to the post `id`.
    pub fn like_post(&mut self, id: usize) -> (r: Result<(), PostError>)
        requires
            old(self)@.posts.contains_key(id) ==> old(self)@.posts[id].likes < usize::MAX,
        ensures
            old(self)@.wf() ==> final(self)@.wf(),
            old(self)@.posts.contains_key(id) ==> r is Ok && final(self)@ == old(self)@.liked(id),
            !old(self)@.posts.contains_key(id) ==> r == Err::<(), PostError>(PostError::NotFound(id))
                && final(self)@ == old(self)@,
    {
        match self.posts.remove(&id) {
            Some(mut p) => {
                p.like();
                self.posts.insert(id, p);
                assert(self@.posts =~= old(self)@.liked(id).posts);
                Ok(())
            },
            None => {
                assert(self@.posts =~= old(self)@.posts);
                Err(PostError::NotFound(id))
            },
        }
    }

    /// Adds one dislike to the post `id`.
    pub fn dislike_post(&mut self, id: usize) -> (r: Result<(), PostError>)
        requires
            old(self)@.posts.contains_key(id) ==> old(self)@.posts[id].dislikes < usize::MAX,
        ensures
            old(self)@.wf() ==> final(self)@.wf(),
            old(self)@.posts.contains_key(id) ==> r is Ok && final(self)@ == old(self)@.disliked(id),
            !old(self)@.posts.contains_key(id) ==> r == Err::<(), PostError>(PostError::NotFound(id))
                && final(self)@ == old(self)@,
    {
        match self.posts.remove(&id) {
            Some(mut p) => {
                p.dislike();
                self.posts.insert(id, p);
                assert(self@.posts =~= old(self)@.disliked(id).posts);
                Ok(())
            },
            None => {
                assert(self@.posts =~= old(self)@.posts);
                Err(PostError::NotFound(id))
            },
        }
    }

    /// Removes the post `id`.
    pub fn delete_post(&mut self, id: usize) -> (r: Result<(), PostError>)
        ensures
            old(self)@.wf() ==> final(self)@.wf(),
            old(self)@.posts.contains_key(id) ==> r is Ok && final(self)@ == old(self)@.deleted(id),
            !old(self)@.posts.contains_key(id) ==> r == Err::<(), PostError>(PostError::NotFound(id))
                && final(self)@ == old(self)@,
    {
        match self.posts.remove(&id) {
            Some(_) => {
                assert(self@.posts =~= old(self)@.deleted(id).posts);
                Ok(())
            },
            None => {
                assert(self@.posts =~= old(self)@.posts);
                Err(PostError::NotFound(id))
            },
        }
    }

    /// The link under which the post `id` is shared.
    pub fn share_post(&self, id: usize) -> (r: Result<String, PostError>)
        ensures
            self@.posts.contains_key(id) ==> (r matches Ok(link) && link@ == share_link_of(self@.posts[id].id)),
            !self@.posts.contains_key(id) ==> r == Err::<String, PostError>(PostError::NotFound(id)),
    {
        match self.posts.get(&id) {
            Some(p) => Ok(p.share_link()),
            None => Err(PostError::NotFound(id)),
        }
    }

    /// Every entry, each once, as its key and a copy of its post, in no
    /// particular order.
    pub fn entries(&self) -> (r: Vec<(usize, Post)>)
        ensures
            lists_entries(self@.posts, entry_views(r@)),
    {
        let mut out: Vec<(usize, Post)> = Vec::new();
        let ghost entries = vstd::std_specs::hash::spec_hash_map_iter(&self.posts).remaining();
        assert(self@.posts.dom() =~= self.posts@.dom());
        for entry in it: self.posts.iter()
            invariant
                it.seq() == entries,
                entries.no_duplicates(),
                out.len() == it.index(),
                it.seq().len() == self@.posts.dom().len(),
                forall|j: int| 0 <= j < it.seq().len()
                    ==> self@.posts.contains_key(*(#[trigger] it.seq()[j]).0)
                        && self@.posts[*it.seq()[j].0] == it.seq()[j].1@,
                forall|j: int| 0 <= j < out.len()
                    ==> (#[trigger] out@[j]).0 == *it.seq()[j].0 && out@[j].1@ == it.seq()[j].1@,
        {
            out.push((*entry.0, entry.1.duplicate()));
        }
        proof {
            let s = entry_views(out@);
            assert forall|i: int| 0 <= i < s.len() implies {
                let e = #[trigger] s[i];
                self@.posts.contains_key(e.0) && self@.posts[e.0] == e.1
            } by {
                assert(out@[i].0 == *entries[i].0);
            }
            assert forall|k: usize| #[trigger] self@.posts.contains_key(k)
                implies exists|i: int| 0 <= i < s.len() && s[i].0 == k by {
                assert(entries.contains((&k, &self.posts@[k])));
                let i = choose|i: int| 0 <= i < entries.len() && entries[i] == (&k, &self.posts@[k]);
                assert(out@[i].0 == k);
                assert(s[i].0 == k);
            }
            assert forall|i: int, j: int| 0 <= i < s.len() && 0 <= j < s.len() && i != j
                implies #[trigger] s[i].0 != #[trigger] s[j].0 by {
                assert(out@[i].0 == *entries[i].0 && out@[j].0 == *entries[j].0);
                if s[i].0 == s[j].0 {
                    assert(entries[i] == entries[j]);
                }
            }
        }
        out
    }

    /// Every post, each once, in no particular order.
    pub fn display_posts(&self) -> (r: Vec<Post>)
        ensures
            exists|es: Seq<(usize, PostView)>| #[trigger] lists_entries(self@.posts, es)
                && r@.map_values(|p: Post| p@) == es.map_values(|e: (usize, PostView)| e.1),
    {
        let es = self.entries();
        let mut out: Vec<Post> = Vec::new();
        let mut i: usize = 0;
        while i < es.len()
            invariant
                i <= es.len(),
                out.len() == i,
                forall|j: int| 0 <= j < i ==> (#[trigger] out@[j])@ == es@[j].1@,
            decreases es.len() - i,
        {
            out.push(es[i].1.duplicate());
            i = i + 1;
        }
        let ghost w = entry_views(es@);
        assert(out@.map_values(|p: Post| p@) =~= w.map_values(|e: (usize, PostView)| e.1));
        out
    }

    /// A manager holding the saved `entries` (a later entry under the same key
    /// wins) and the saved counter as it stands.
    pub fn restore(entries: Vec<(usize, Post)>, next_id: usize) -> (r: PostManager)
        ensures
            r@ == (ManagerView { posts: entries_map(entry_views(entries@)), next_id: next_id as nat }),
            restorable(entry_views(entries@), next_id as nat) ==> r@.wf(),
    {
        let ghost es = entry_views(entries@);
        let mut r = PostManager { posts: HashMap::new(), next_id };
        assert(r@.posts =~= entries_map(es.take(0)));
        let mut i: usize = 0;
        while i < entries.len()
            invariant
                i <= entries.len(),
                es == entry_views(entries@),
                r.next_id == next_id,
                r@.posts == entries_map(es.take(i as int)),
                restorable(es, next_id as nat) ==> r@.wf(),
            decreases entries.len() - i,
        {
            let key = entries[i].0;
            let p = entries[i].1.duplicate();
            r.posts.insert(key, p);
            proof {
                assert(es.take(i + 1).drop_last() =~= es.take(i as int));
                assert(r@.posts =~= entries_map(es.take(i + 1)));
                if restorable(es, next_id as nat) {
                    let e = es[i as int];
                    assert(e == (key, entries@[i as int].1@));
                }
            }
            i = i + 1;
        }
        assert(es.take(i as int) =~= es);
        r
    }
}

} // verus!
