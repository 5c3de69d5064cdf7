use post_manager::manager::{PostError, PostManager};
use post_manager::post::Post;

fn sorted_posts(m: &PostManager) -> Vec<Post> {
    let mut ps = m.display_posts();
    ps.sort_by_key(|p| p.id);
    ps
}

fn entries_of(m: &PostManager) -> Vec<(usize, Post)> {
    m.entries()
}

#[test]
fn lifecycle_of_one_post() {
    let mut m = PostManager::new();
    let id = m.create_post("hello".to_string());
    assert_eq!(id, 1);
    assert_eq!(m.add_comment(1, "nice".to_string()), Ok(()));
    assert_eq!(m.post(1).unwrap().comments, vec!["nice".to_string()]);
    assert_eq!(m.like_post(1), Ok(()));
    assert_eq!(m.like_post(1), Ok(()));
    assert_eq!(m.post(1).unwrap().likes, 2);
    assert_eq!(m.dislike_post(1), Ok(()));
    assert_eq!(m.post(1).unwrap().dislikes, 1);
    assert_eq!(m.share_post(1), Ok("http://myapp.com/post/1".to_string()));
    assert_eq!(m.delete_post(1), Ok(()));
    assert!(m.post(1).is_none());
    let before = sorted_posts(&m);
    let next = m.next_id();
    assert_eq!(m.add_comment(1, "x".to_string()), Err(PostError::NotFound(1)));
    assert_eq!(sorted_posts(&m), before);
    assert_eq!(m.next_id(), next);
}

#[test]
fn fresh_manager_is_empty() {
    let m = PostManager::new();
    assert!(m.display_posts().is_empty());
    assert_eq!(m.next_id(), 1);
    assert!(m.post(1).is_none());
}

#[test]
fn ids_count_up_from_one_across_deletes() {
    let mut m = PostManager::new();
    assert_eq!(m.create_post("a".to_string()), 1);
    assert_eq!(m.create_post("b".to_string()), 2);
    assert_eq!(m.delete_post(2), Ok(()));
    assert_eq!(m.delete_post(1), Ok(()));
    assert_eq!(m.create_post("c".to_string()), 3);
    assert_eq!(m.next_id(), 4);
}

#[test]
fn deleted_id_is_not_reassigned() {
    let mut m = PostManager::new();
    m.create_post("a".to_string());
    let x = m.create_post("b".to_string());
    assert_eq!(m.delete_post(x), Ok(()));
    let y = m.create_post("c".to_string());
    assert_ne!(x, y);
    assert!(m.post(x).is_none());
    assert_eq!(m.post(y).unwrap().content, "c");
}

#[test]
fn like_and_dislike_touch_one_counter() {
    let mut m = PostManager::new();
    let id = m.create_post("p".to_string());
    m.add_comment(id, "first".to_string()).unwrap();
    m.like_post(id).unwrap();
    let p = m.post(id).unwrap();
    assert_eq!((p.likes, p.dislikes), (1, 0));
    assert_eq!(p.comments, vec!["first".to_string()]);
    m.dislike_post(id).unwrap();
    m.dislike_post(id).unwrap();
    let p = m.post(id).unwrap();
    assert_eq!((p.likes, p.dislikes), (1, 2));
    assert_eq!(p.comments, vec!["first".to_string()]);
    assert_eq!(p.content, "p");
}

#[test]
fn comments_keep_their_order() {
    let mut m = PostManager::new();
    let id = m.create_post("p".to_string());
    for c in ["one", "two", "three", ""] {
        m.add_comment(id, c.to_string()).unwrap();
    }
    let expected: Vec<String> = vec!["one".into(), "two".into(), "three".into(), "".into()];
    assert_eq!(m.post(id).unwrap().comments, expected);
}

#[test]
fn missing_id_changes_nothing() {
    let mut m = PostManager::new();
    let id = m.create_post("kept".to_string());
    m.like_post(id).unwrap();
    let before = sorted_posts(&m);
    for missing in [0usize, 2, 99, usize::MAX] {
        assert_eq!(m.add_comment(missing, "c".to_string()), Err(PostError::NotFound(missing)));
        assert_eq!(m.like_post(missing), Err(PostError::NotFound(missing)));
        assert_eq!(m.dislike_post(missing), Err(PostError::NotFound(missing)));
        assert_eq!(m.delete_post(missing), Err(PostError::NotFound(missing)));
        assert_eq!(m.share_post(missing), Err(PostError::NotFound(missing)));
    }
    assert_eq!(sorted_posts(&m), before);
    assert_eq!(m.next_id(), 2);
}

#[test]
fn snapshot_round_trip() {
    let mut m = PostManager::new();
    let a = m.create_post("a".to_string());
    let b = m.create_post("b".to_string());
    let c = m.create_post("".to_string());
    m.add_comment(a, "x".to_string()).unwrap();
    m.add_comment(a, "y".to_string()).unwrap();
    m.like_post(b).unwrap();
    m.dislike_post(c).unwrap();
    m.delete_post(b).unwrap();
    let restored = PostManager::restore(entries_of(&m), m.next_id());
    assert_eq!(sorted_posts(&restored), sorted_posts(&m));
    assert_eq!(restored.next_id(), 4);
    assert_eq!(restored.display_posts().len(), 2);
}

#[test]
fn restore_keeps_the_stored_counter() {
    let p = Post::new(3, "c".to_string());
    let m = PostManager::restore(vec![(3, p)], 10);
    assert_eq!(m.next_id(), 10);
    assert_eq!(m.post(3).unwrap().content, "c");
}

#[test]
fn restore_later_entry_wins() {
    let first = Post::new(2, "first".to_string());
    let second = Post::new(2, "second".to_string());
    let m = PostManager::restore(vec![(2, first), (2, second)], 3);
    assert_eq!(m.display_posts().len(), 1);
    assert_eq!(m.post(2).unwrap().content, "second");
}

#[test]
fn restore_keeps_an_inconsistent_state_as_saved() {
    let m = PostManager::restore(vec![(3, Post::new(3, "three".to_string()))], 2);
    assert_eq!(m.next_id(), 2);
    assert_eq!(m.post(3).unwrap().content, "three");

    let mut m = PostManager::restore(vec![(1, Post::new(2, "a".to_string()))], 5);
    assert_eq!(m.post(1).unwrap().id, 2);
    assert_eq!(m.share_post(1), Ok("http://myapp.com/post/2".to_string()));
    assert_eq!(m.like_post(1), Ok(()));
    assert_eq!(m.post(1).unwrap().likes, 1);

    let m = PostManager::restore(vec![(0, Post::new(0, "a".to_string()))], 0);
    assert_eq!(m.next_id(), 0);
    assert_eq!(m.post(0).unwrap().content, "a");

    let fresh = PostManager::restore(vec![], 1);
    assert!(fresh.display_posts().is_empty());
    assert_eq!(fresh.next_id(), 1);
}

#[test]
fn entries_pair_each_post_with_its_key() {
    let mut m = PostManager::restore(vec![(4, Post::new(9, "x".to_string()))], 5);
    m.create_post("y".to_string());
    let mut es = m.entries();
    es.sort_by_key(|e| e.0);
    assert_eq!(es.len(), 2);
    assert_eq!((es[0].0, es[0].1.id), (4, 9));
    assert_eq!((es[1].0, es[1].1.id), (5, 5));
    let back = PostManager::restore(m.entries(), m.next_id());
    assert_eq!(sorted_posts(&back), sorted_posts(&m));
    assert_eq!(back.post(4).unwrap().content, "x");
}

#[test]
fn new_manager_after_many_posts() {
    let mut m = PostManager::new();
    for i in 1..=20usize {
        assert_eq!(m.create_post(format!("post {}", i)), i);
    }
    assert_eq!(m.display_posts().len(), 20);
    assert_eq!(m.share_post(20), Ok("http://myapp.com/post/20".to_string()));
}
