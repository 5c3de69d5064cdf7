use vstd::prelude::*;

use crate::decimal::{decimal, push_decimal};

verus! {

/// What a post holds, as mathematical values.
pub struct PostView {
    pub id: nat,
    pub content: Seq<char>,
    pub comments: Seq<Seq<char>>,
    pub likes: nat,
    pub dislikes: nat,
}

/// The link under which a post with identifier `id` is shared.
pub open spec fn share_link_of(id: nat) -> Seq<char> {
    "http://myapp.com/post/"@ + decimal(id)
}

/// A single post: its text, the comments on it and its engagement counters.
#[derive(Debug, PartialEq, Eq)]
pub struct Post {
    pub id: usize,
    pub content: String,
    pub comments: Vec<String>,
    pub likes: usize,
    pub dislikes: usize,
}

impl View for Post {
    type V = PostView;

    open spec fn view(&self) -> PostView {
        PostView {
            id: self.id as nat,
            content: self.content@,
            comments: self.comments@.map_values(|c: String| c@),
            likes: self.likes as nat,
            dislikes: self.dislikes as nat,
        }
    }
}

impl Post {
    /// A post with no comments and both counters at zero.
    pub fn new(id: usize, content: String) -> (r: Post)
        ensures
            r@ == (PostView {
                id: id as nat,
                content: content@,
                comments: Seq::empty(),
                likes: 0,
                dislikes: 0,
            }),
    {
        let r = Post { id, content, comments: Vec::new(), likes: 0, dislikes: 0 };
        assert(r@.comments =~= Seq::empty());
        r
    }

    /// Appends `comment` verbatim after the comments already there.
    pub fn add_comment(&mut self, comment: String)
        ensures
            final(self)@ == (PostView { comments: old(self)@.comments.push(comment@), ..old(self)@ }),
    {
        self.comments.push(comment);
        assert(self@.comments =~= old(self)@.comments.push(comment@));
    }

    /// Adds one like.
    pub fn like(&mut self)
        requires
            old(self).likes < usize::MAX,
        ensures
            final(self)@ == (PostView { likes: old(self)@.likes + 1, ..old(self)@ }),
    {
        self.likes = self.likes + 1;
    }

    /// Adds one dislike.
    pub fn dislike(&mut self)
        requires
            old(self).dislikes < usize::MAX,
        ensures
            final(self)@ == (PostView { dislikes: old(self)@.dislikes + 1, ..old(self)@ }),
    {
        self.dislikes = self.dislikes + 1;
    }

    /// The link under which this post is shared.
    pub fn share_link(&self) -> (r: String)
        ensures
            r@ == share_link_of(self@.id),
    {
        let mut r = String::from_str("http://myapp.com/post/");
        push_decimal(&mut r, self.id);
        r
    }

    /// A post with the same identifier, content, comments and counters.
    pub fn duplicate(&self) -> (r: Post)
        ensures
            r@ == self@,
    {
        let mut comments: Vec<String> = Vec::new();
        let mut i: usize = 0;
        while i < self.comments.len()
            invariant
                i <= self.comments.len(),
                comments.len() == i,
                forall|j: int| 0 <= j < i ==> #[trigger] comments@[j]@ == self.comments@[j]@,
            decreases self.comments.len() - i,
        {
            comments.push(self.comments[i].clone());
            i = i + 1;
        }
        let r = Post {
            id: self.id,
            content: self.content.clone(),
            comments,
            likes: self.likes,
            dislikes: self.dislikes,
        };
        assert(r@.comments =~= self@.comments);
        r
    }
}

} // verus!
