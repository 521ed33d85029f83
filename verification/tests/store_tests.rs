use rustchan::models::{Board, Post, Timestamp};
use rustchan::db::{
    create_board, create_post, delete_board, delete_post, get_admin_stats, get_all_posts, get_board,
    get_boards, get_post_count, get_thread, get_threads, init_db, lock_thread, move_thread,
    update_board, Store, StoreError,
};

fn at(secs: i64) -> Timestamp {
    Timestamp { secs, nanos: 0 }
}

fn seeded_store() -> Store {
    let mut s = Store::new();
    init_db(&mut s).unwrap();
    s
}

fn slugs(boards: &[Board]) -> Vec<String> {
    boards.iter().map(|b| b.slug.clone()).collect()
}

fn ids(posts: &[Post]) -> Vec<i64> {
    posts.iter().map(|p| p.id).collect()
}

#[test]
fn seeding_adds_the_default_boards_in_slug_order() {
    let s = seeded_store();
    let boards = get_boards(&s);
    assert_eq!(slugs(&boards), vec!["a", "b", "g", "pol", "v"]);
    let b = get_board(&s, "b").unwrap();
    assert_eq!(b.id, 1);
    assert_eq!(b.name, "Random");
    assert_eq!(
        b.description,
        "The stories and information posted here are artistic works of fiction and falsehood."
    );
    assert_eq!(get_board(&s, "a").unwrap().name, "Anime & Manga");
    assert_eq!(get_board(&s, "pol").unwrap().id, 5);
}

#[test]
fn seeding_twice_changes_nothing() {
    let mut s = seeded_store();
    init_db(&mut s).unwrap();
    assert_eq!(get_boards(&s).len(), 5);
    assert_eq!(s.last_board_id(), 5);
}

#[test]
fn seeding_keeps_an_existing_board() {
    let mut s = Store::new();
    create_board(&mut s, "g", "Gadgets", "mine").unwrap();
    init_db(&mut s).unwrap();
    let g = get_board(&s, "g").unwrap();
    assert_eq!(g.name, "Gadgets");
    assert_eq!(g.id, 1);
    assert_eq!(get_boards(&s).len(), 5);
}

#[test]
fn created_board_is_found_by_slug() {
    let mut s = seeded_store();
    create_board(&mut s, "c", "Cooking", "Food").unwrap();
    let c = get_board(&s, "c").unwrap();
    assert_eq!((c.id, c.name.as_str(), c.description.as_str()), (6, "Cooking", "Food"));
    assert_eq!(slugs(&get_boards(&s)), vec!["a", "b", "c", "g", "pol", "v"]);
}

#[test]
fn duplicate_slug_is_refused() {
    let mut s = seeded_store();
    assert_eq!(create_board(&mut s, "b", "Again", ""), Err(StoreError::DuplicateSlug));
    assert_eq!(get_board(&s, "b").unwrap().name, "Random");
    assert_eq!(get_boards(&s).len(), 5);
}

#[test]
fn missing_board_is_none() {
    let s = seeded_store();
    assert!(get_board(&s, "zzz").is_none());
    assert!(get_board(&s, "").is_none());
}

#[test]
fn update_board_renames_only_that_board() {
    let mut s = seeded_store();
    update_board(&mut s, "g", "Tech", "Computers");
    let g = get_board(&s, "g").unwrap();
    assert_eq!((g.name.as_str(), g.description.as_str()), ("Tech", "Computers"));
    assert_eq!(get_board(&s, "v").unwrap().name, "Video Games");
    update_board(&mut s, "nope", "X", "Y");
    assert_eq!(get_boards(&s).len(), 5);
}

#[test]
fn delete_board_removes_board_and_its_posts() {
    let mut s = seeded_store();
    let t = s.insert_post_at(at(10), "g", None, "a1", "on g", None, None).unwrap();
    s.insert_post_at(at(11), "g", Some(t), "a1", "reply", None, None).unwrap();
    let kept = s.insert_post_at(at(12), "b", None, "a2", "on b", None, None).unwrap();
    delete_board(&mut s, "g").unwrap();
    assert!(get_board(&s, "g").is_none());
    assert_eq!(ids(&s.get_posts()), vec![kept]);
    assert_eq!(get_boards(&s).len(), 4);
}

#[test]
fn post_ids_count_up_and_are_not_reused() {
    let mut s = seeded_store();
    let a = s.insert_post_at(at(1), "b", None, "x", "one", None, None).unwrap();
    let b = s.insert_post_at(at(2), "b", None, "x", "two", None, None).unwrap();
    assert_eq!((a, b), (1, 2));
    delete_post(&mut s, b).unwrap();
    let c = s.insert_post_at(at(3), "b", None, "x", "three", None, None).unwrap();
    assert_eq!(c, 3);
}

#[test]
fn reply_bumps_its_thread() {
    let mut s = seeded_store();
    let t = s.insert_post_at(at(100), "b", None, "x", "op", None, None).unwrap();
    let r = s.insert_post_at(at(200), "b", Some(t), "y", "re", Some("img.png"), Some("cat.png")).unwrap();
    let posts = s.get_posts();
    assert_eq!(posts[0].bump_time, at(200));
    assert_eq!(posts[0].created_at, at(100));
    assert_eq!(posts[1].id, r);
    assert_eq!(posts[1].thread_id, Some(t));
    assert_eq!(posts[1].image_path.as_deref(), Some("img.png"));
    assert_eq!(posts[1].image_name.as_deref(), Some("cat.png"));
    assert_eq!((posts[1].created_at, posts[1].bump_time), (at(200), at(200)));
}

#[test]
fn create_post_uses_the_clock() {
    let mut s = seeded_store();
    let id = create_post(&mut s, "b", None, "x", "now", None, None).unwrap();
    let p = &s.get_posts()[0];
    assert_eq!(p.id, id);
    assert_eq!(p.created_at, p.bump_time);
    assert!(p.created_at.secs > 1_600_000_000);
}

#[test]
fn board_page_lists_ten_most_recently_bumped_threads() {
    let mut s = seeded_store();
    let mut ops = Vec::new();
    for i in 0..12 {
        ops.push(s.insert_post_at(at(i), "b", None, "x", "op", None, None).unwrap());
    }
    s.insert_post_at(at(5), "g", None, "x", "elsewhere", None, None).unwrap();
    // a reply lifts the oldest thread to the top
    s.insert_post_at(at(100), "b", Some(ops[0]), "y", "bump", None, None).unwrap();
    let threads = get_threads(&s, "b");
    let listed: Vec<i64> = threads.iter().map(|t| t.op.id).collect();
    assert_eq!(listed, vec![ops[0], ops[11], ops[10], ops[9], ops[8], ops[7], ops[6], ops[5], ops[4], ops[3]]);
}

#[test]
fn equal_bump_times_list_by_ascending_id() {
    let mut s = seeded_store();
    let a = s.insert_post_at(at(7), "b", None, "x", "a", None, None).unwrap();
    let b = s.insert_post_at(at(7), "b", None, "x", "b", None, None).unwrap();
    let listed: Vec<i64> = get_threads(&s, "b").iter().map(|t| t.op.id).collect();
    assert_eq!(listed, vec![a, b]);
}

#[test]
fn board_page_shows_three_newest_replies_oldest_first() {
    let mut s = seeded_store();
    let t = s.insert_post_at(at(1), "b", None, "x", "op", None, None).unwrap();
    let mut replies = Vec::new();
    for i in 0..5 {
        replies.push(s.insert_post_at(at(10 + i), "b", Some(t), "y", "re", None, None).unwrap());
    }
    let threads = get_threads(&s, "b");
    assert_eq!(threads.len(), 1);
    assert_eq!(ids(&threads[0].replies), vec![replies[2], replies[3], replies[4]]);
    assert_eq!(threads[0].reply_count, 5);
}

#[test]
fn thread_lists_all_replies_oldest_first() {
    let mut s = seeded_store();
    let t = s.insert_post_at(at(1), "b", None, "x", "op", None, None).unwrap();
    let r1 = s.insert_post_at(at(30), "b", Some(t), "y", "late", None, None).unwrap();
    let r2 = s.insert_post_at(at(20), "b", Some(t), "y", "early", None, None).unwrap();
    let th = get_thread(&s, t).unwrap();
    assert_eq!(th.op.id, t);
    assert_eq!(ids(&th.replies), vec![r2, r1]);
    assert_eq!(th.reply_count, 2);
}

#[test]
fn a_reply_is_no_thread() {
    let mut s = seeded_store();
    let t = s.insert_post_at(at(1), "b", None, "x", "op", None, None).unwrap();
    let r = s.insert_post_at(at(2), "b", Some(t), "y", "re", None, None).unwrap();
    assert!(get_thread(&s, r).is_none());
    assert!(get_thread(&s, 999).is_none());
}

#[test]
fn listing_pages_newest_first() {
    let mut s = seeded_store();
    for i in 0..7 {
        s.insert_post_at(at(i), "b", None, "x", "p", None, None).unwrap();
    }
    let page: Vec<i64> = get_all_posts(&s, 3, 2).iter().map(|p| p.id).collect();
    assert_eq!(page, vec![5, 4, 3]);
    let tail: Vec<i64> = get_all_posts(&s, 3, 6).iter().map(|p| p.id).collect();
    assert_eq!(tail, vec![1]);
    assert!(get_all_posts(&s, 3, 7).is_empty());
    let all: Vec<i64> = get_all_posts(&s, -1, 0).iter().map(|p| p.id).collect();
    assert_eq!(all, vec![7, 6, 5, 4, 3, 2, 1]);
    let from_start: Vec<i64> = get_all_posts(&s, 2, -5).iter().map(|p| p.id).collect();
    assert_eq!(from_start, vec![7, 6]);
    assert_eq!(get_post_count(&s), 7);
}

#[test]
fn listing_length_is_limit_or_what_is_left() {
    let mut s = seeded_store();
    for i in 0..7 {
        s.insert_post_at(at(i), "b", None, "x", "p", None, None).unwrap();
    }
    assert_eq!(get_all_posts(&s, 4, 0).len(), 4);
    assert_eq!(get_all_posts(&s, 4, 5).len(), 2);
    assert_eq!(get_all_posts(&s, 0, 1).len(), 0);
    assert_eq!(get_all_posts(&s, -1, 3).len(), 4);
    assert_eq!(get_all_posts(&s, 10, -3).len(), 7);
    assert_eq!(get_all_posts(&s, 10, 100).len(), 0);
}

#[test]
fn delete_post_removes_its_replies() {
    let mut s = seeded_store();
    let t = s.insert_post_at(at(1), "b", None, "x", "op", None, None).unwrap();
    s.insert_post_at(at(2), "b", Some(t), "y", "re", None, None).unwrap();
    let other = s.insert_post_at(at(3), "b", None, "z", "other", None, None).unwrap();
    delete_post(&mut s, t).unwrap();
    assert_eq!(ids(&s.get_posts()), vec![other]);
}

#[test]
fn delete_reply_keeps_thread() {
    let mut s = seeded_store();
    let t = s.insert_post_at(at(1), "b", None, "x", "op", None, None).unwrap();
    let r = s.insert_post_at(at(2), "b", Some(t), "y", "re", None, None).unwrap();
    delete_post(&mut s, r).unwrap();
    assert_eq!(ids(&s.get_posts()), vec![t]);
}

#[test]
fn lock_thread_prefixes_content_each_time() {
    let mut s = seeded_store();
    let t = s.insert_post_at(at(1), "b", None, "x", "hello", None, None).unwrap();
    lock_thread(&mut s, t);
    assert_eq!(s.get_posts()[0].content, "[LOCKED] hello");
    lock_thread(&mut s, t);
    assert_eq!(s.get_posts()[0].content, "[LOCKED] [LOCKED] hello");
    lock_thread(&mut s, 42);
    assert_eq!(s.get_posts()[0].content, "[LOCKED] [LOCKED] hello");
}

#[test]
fn move_thread_moves_thread_and_replies() {
    let mut s = seeded_store();
    let t = s.insert_post_at(at(1), "b", None, "x", "op", None, None).unwrap();
    s.insert_post_at(at(2), "b", Some(t), "y", "re", None, None).unwrap();
    s.insert_post_at(at(3), "b", None, "z", "stays", None, None).unwrap();
    move_thread(&mut s, t, "g").unwrap();
    let boards: Vec<String> = s.get_posts().iter().map(|p| p.board_slug.clone()).collect();
    assert_eq!(boards, vec!["g", "g", "b"]);
}

#[test]
fn move_of_a_reply_does_nothing() {
    let mut s = seeded_store();
    let t = s.insert_post_at(at(1), "b", None, "x", "op", None, None).unwrap();
    let r = s.insert_post_at(at(2), "b", Some(t), "y", "re", None, None).unwrap();
    move_thread(&mut s, r, "g").unwrap();
    let boards: Vec<String> = s.get_posts().iter().map(|p| p.board_slug.clone()).collect();
    assert_eq!(boards, vec!["b", "b"]);
}

#[test]
fn admin_stats_count_boards_posts_and_threads() {
    let mut s = seeded_store();
    let t = s.insert_post_at(at(1), "b", None, "x", "op", None, None).unwrap();
    s.insert_post_at(at(2), "b", Some(t), "y", "re", None, None).unwrap();
    s.insert_post_at(at(3), "g", None, "y", "op2", None, None).unwrap();
    let st = get_admin_stats(&s);
    assert_eq!((st.total_boards, st.total_posts, st.total_threads), (5, 3, 2));
    assert!(st.total_threads <= st.total_posts);
}

#[test]
fn full_post_ids_are_refused() {
    let mut s = Store::from_parts(Vec::new(), Vec::new(), 0, i64::MAX).unwrap();
    assert_eq!(s.insert_post_at(at(1), "b", None, "x", "op", None, None), Err(StoreError::Full));
    assert!(s.get_posts().is_empty());
}

#[test]
fn full_board_ids_are_refused() {
    let mut s = Store::from_parts(Vec::new(), Vec::new(), i64::MAX, 0).unwrap();
    assert_eq!(create_board(&mut s, "c", "C", ""), Err(StoreError::Full));
    assert_eq!(init_db(&mut s), Err(StoreError::Full));
    assert!(get_boards(&s).is_empty());
}

#[test]
fn from_parts_checks_the_invariant() {
    let b = |id: i64, slug: &str| Board { id, slug: slug.to_string(), name: "n".to_string(), description: String::new() };
    assert!(Store::from_parts(vec![b(1, "a"), b(2, "b")], Vec::new(), 2, 0).is_some());
    assert!(Store::from_parts(vec![b(1, "b"), b(2, "a")], Vec::new(), 2, 0).is_none());
    assert!(Store::from_parts(vec![b(1, "a"), b(2, "a")], Vec::new(), 2, 0).is_none());
    assert!(Store::from_parts(vec![b(3, "a")], Vec::new(), 2, 0).is_none());
    assert!(Store::from_parts(Vec::new(), Vec::new(), -1, 0).is_none());
    let p = |id: i64| Post {
        id,
        board_slug: "a".to_string(),
        thread_id: None,
        author_id: String::new(),
        content: String::new(),
        image_path: None,
        image_name: None,
        created_at: at(0),
        bump_time: at(0),
    };
    assert!(Store::from_parts(Vec::new(), vec![p(1), p(4)], 0, 4).is_some());
    assert!(Store::from_parts(Vec::new(), vec![p(4), p(1)], 0, 4).is_none());
    assert!(Store::from_parts(Vec::new(), vec![p(1), p(5)], 0, 4).is_none());
}

#[test]
fn post_is_thread_when_it_replies_to_none() {
    let mut s = seeded_store();
    let t = s.insert_post_at(at(1), "b", None, "x", "op", None, None).unwrap();
    s.insert_post_at(at(2), "b", Some(t), "y", "re", None, None).unwrap();
    let posts = s.get_posts();
    assert!(posts[0].is_thread());
    assert!(!posts[1].is_thread());
}

#[test]
fn posts_need_an_existing_board_and_thread() {
    let mut s = seeded_store();
    assert_eq!(s.insert_post_at(at(1), "nope", None, "x", "op", None, None), Err(StoreError::ForeignKey));
    assert_eq!(s.insert_post_at(at(1), "b", Some(7), "x", "re", None, None), Err(StoreError::ForeignKey));
    assert!(s.get_posts().is_empty());
    // a post may name itself as the post it replies to
    assert_eq!(s.insert_post_at(at(1), "b", Some(1), "x", "self", None, None), Ok(1));
    let t = s.insert_post_at(at(2), "b", None, "x", "op", None, None).unwrap();
    // a reply may reply to a reply
    let r = s.insert_post_at(at(3), "b", Some(t), "x", "re", None, None).unwrap();
    assert!(s.insert_post_at(at(4), "b", Some(r), "x", "re re", None, None).is_ok());
}

#[test]
fn deleting_a_post_that_a_staying_post_replies_to_is_refused() {
    let mut s = seeded_store();
    let t = s.insert_post_at(at(1), "b", None, "x", "op", None, None).unwrap();
    let r = s.insert_post_at(at(2), "b", Some(t), "x", "re", None, None).unwrap();
    s.insert_post_at(at(3), "b", Some(r), "x", "re re", None, None).unwrap();
    assert_eq!(delete_post(&mut s, t), Err(StoreError::ForeignKey));
    assert_eq!(s.get_posts().len(), 3);
}

#[test]
fn deleting_a_board_whose_post_is_replied_to_from_elsewhere_is_refused() {
    let mut s = seeded_store();
    let t = s.insert_post_at(at(1), "b", None, "x", "op", None, None).unwrap();
    s.insert_post_at(at(2), "g", Some(t), "x", "reply on g", None, None).unwrap();
    assert_eq!(delete_board(&mut s, "b"), Err(StoreError::ForeignKey));
    assert!(get_board(&s, "b").is_some());
    assert_eq!(s.get_posts().len(), 2);
}

#[test]
fn moving_to_a_missing_board_is_refused() {
    let mut s = seeded_store();
    let t = s.insert_post_at(at(1), "b", None, "x", "op", None, None).unwrap();
    assert_eq!(move_thread(&mut s, t, "nope"), Err(StoreError::ForeignKey));
    assert_eq!(s.get_posts()[0].board_slug, "b");
    assert_eq!(move_thread(&mut s, 99, "nope"), Ok(()));
}

#[test]
fn newest_post_is_the_last_made() {
    let mut s = seeded_store();
    assert!(s.newest_post().is_none());
    s.insert_post_at(at(5), "b", None, "x", "a", None, None).unwrap();
    let b = s.insert_post_at(at(1), "b", None, "x", "b", None, None).unwrap();
    assert_eq!(s.newest_post().unwrap().id, b);
}

#[test]
fn insert_or_ignore_reports_whether_it_inserted() {
    let mut s = seeded_store();
    assert_eq!(s.insert_board_or_ignore("b", "X", "Y"), Ok(false));
    assert_eq!(s.insert_board_or_ignore("c", "C", "Cc"), Ok(true));
    assert_eq!(get_board(&s, "c").unwrap().id, 6);
}
