use rustchan::handlers::{
    admin_boards, admin_create_board, admin_dashboard, admin_delete_board, admin_delete_post,
    admin_edit_board_form, admin_lock_thread, admin_login, admin_move_thread, admin_posts,
    admin_update_board, board, board_field_kind, check_admin_auth, file_extension,
    image_upload_for, index, login_with_token, page_number, plan_image_upload, post_field_kind,
    post_redirect, thread, create_thread, create_reply, total_pages, validate_post, BoardField, LoginOutcome,
    MoveQuery, Pagination, PostField, Rejection,
};
use rustchan::models::{AdminStats, Timestamp};
use rustchan::db::{get_board, get_boards, init_db, Store, StoreError};

const MOD: Option<&str> = Some("theme=dark; admin_session=tok-1");

fn seeded_store() -> Store {
    let mut s = Store::new();
    init_db(&mut s).unwrap();
    assert!(matches!(login_with_token(&mut s, "admin123", "tok-1"), LoginOutcome::Granted { .. }));
    s
}

fn at(secs: i64) -> Timestamp {
    Timestamp { secs, nanos: 0 }
}

#[test]
fn admin_auth_needs_a_handed_out_session() {
    let mut s = Store::new();
    assert!(!check_admin_auth(&s, Some("admin_session=abc")));
    assert!(matches!(login_with_token(&mut s, "admin123", "abc"), LoginOutcome::Granted { .. }));
    assert!(check_admin_auth(&s, Some("admin_session=abc")));
    assert!(check_admin_auth(&s, Some("a=b; admin_session=abc")));
    assert!(check_admin_auth(&s, Some("admin_session=abc; theme=dark")));
    assert!(!check_admin_auth(&s, Some("admin_session=abcd")));
    assert!(!check_admin_auth(&s, Some("admin_session=ab")));
    assert!(!check_admin_auth(&s, Some("xadmin_session=abc")));
    assert!(!check_admin_auth(&s, Some("a=b; admin_session=")));
    assert!(!check_admin_auth(&s, Some("admin=abc")));
    assert!(!check_admin_auth(&s, None));
}

#[test]
fn a_forged_session_cookie_is_refused() {
    let mut s = seeded_store();
    let forged = Some("admin_session=x");
    assert!(!check_admin_auth(&s, forged));
    assert_eq!(admin_dashboard(&s, forged).err(), Some(Rejection::Unauthorized));
    assert_eq!(admin_create_board(&mut s, forged, "c", "C", ""), Err(Rejection::Unauthorized));
    assert_eq!(get_boards(&s).len(), 5);
}

#[test]
fn login_with_right_password_sets_the_cookie() {
    let mut s = Store::new();
    match login_with_token(&mut s, "admin123", "tok") {
        LoginOutcome::Granted { cookie } => {
            assert_eq!(cookie, "admin_session=tok; Path=/; HttpOnly; Max-Age=86400")
        }
        LoginOutcome::Refused => panic!("refused"),
    }
    assert_eq!(s.newest_session().as_deref(), Some("tok"));
    assert!(s.has_session("tok"));
    assert!(matches!(login_with_token(&mut s, "admin12", "other"), LoginOutcome::Refused));
    assert!(!s.has_session("other"));
}

#[test]
fn login_makes_a_uuid_token_that_lets_in() {
    let mut s = Store::new();
    match admin_login(&mut s, "admin123") {
        LoginOutcome::Granted { cookie } => {
            assert!(cookie.starts_with("admin_session="));
            assert!(cookie.ends_with("; Path=/; HttpOnly; Max-Age=86400"));
            let token = &cookie["admin_session=".len()..cookie.len() - "; Path=/; HttpOnly; Max-Age=86400".len()];
            assert_eq!(token.len(), 36);
            assert_eq!(&token[8..9], "-");
            assert_eq!(&token[14..15], "4");
            assert!(["8", "9", "a", "b"].contains(&&token[19..20]));
            assert!(s.has_session(token));
            let sent_back = format!("admin_session={}", token);
            assert!(check_admin_auth(&s, Some(sent_back.as_str())));
            assert_eq!(admin_boards(&s, Some(sent_back.as_str())).ok().unwrap().len(), 0);
        }
        LoginOutcome::Refused => panic!("refused"),
    }
    assert!(matches!(admin_login(&mut s, "wrong"), LoginOutcome::Refused));
    assert!(s.newest_session().is_some());
}

#[test]
fn rejections_have_status_and_message() {
    assert_eq!(Rejection::Unauthorized.status(), 401);
    assert_eq!(Rejection::Unauthorized.message(), "Unauthorized");
    assert_eq!(Rejection::InvalidPassword.status(), 401);
    assert_eq!(Rejection::InvalidPassword.message(), "Invalid password");
    assert_eq!(Rejection::BoardNotFound.status(), 404);
    assert_eq!(Rejection::BoardNotFound.message(), "Board not found");
    assert_eq!(Rejection::ThreadNotFound.status(), 404);
    assert_eq!(Rejection::ThreadNotFound.message(), "Thread not found");
    assert_eq!(Rejection::EmptyPost.status(), 400);
    assert_eq!(Rejection::EmptyPost.message(), "Post must have content or image");
    assert_eq!(Rejection::MissingSlugOrName.status(), 400);
    assert_eq!(Rejection::MissingSlugOrName.message(), "Slug and name are required");
    assert_eq!(Rejection::MissingName.status(), 400);
    assert_eq!(Rejection::MissingName.message(), "Name is required");
    assert_eq!(Rejection::Formatting.status(), 500);
    assert_eq!(Rejection::Storage(StoreError::Full).status(), 500);
    assert!(Rejection::Storage(StoreError::DuplicateSlug).message().contains("UNIQUE constraint failed"));
}

#[test]
fn form_fields_are_classified() {
    assert_eq!(post_field_kind("content"), PostField::Content);
    assert_eq!(post_field_kind("image"), PostField::Image);
    assert_eq!(post_field_kind("Content"), PostField::Other);
    assert_eq!(board_field_kind("slug"), BoardField::Slug);
    assert_eq!(board_field_kind("name"), BoardField::Name);
    assert_eq!(board_field_kind("description"), BoardField::Description);
    assert_eq!(board_field_kind("other"), BoardField::Other);
}

#[test]
fn file_extension_is_after_the_last_dot() {
    assert_eq!(file_extension("cat.photo.png"), "png");
    assert_eq!(file_extension("noext"), "noext");
    assert_eq!(file_extension("trailing."), "");
    assert_eq!(file_extension(""), "");
}

#[test]
fn image_upload_names_the_file() {
    let u = image_upload_for("tok", 10, Some("cat.jpg")).unwrap();
    assert_eq!(u.stored_name, "tok.jpg");
    assert_eq!(u.path, "uploads/tok.jpg");
    assert_eq!(u.uploaded_name, "cat.jpg");
    assert!(image_upload_for("tok", 0, Some("cat.jpg")).is_none());
    assert!(image_upload_for("tok", 10, None).is_none());
}

#[test]
fn planned_upload_uses_a_uuid() {
    let u = plan_image_upload(3, Some("a.gif")).unwrap();
    assert_eq!(u.stored_name.len(), 36 + 4);
    assert_eq!(&u.stored_name[14..15], "4");
    assert!(["8", "9", "a", "b"].contains(&&u.stored_name[19..20]));
    assert!(u.stored_name.ends_with(".gif"));
    assert_eq!(u.path, format!("uploads/{}", u.stored_name));
    assert!(plan_image_upload(0, Some("a.gif")).is_none());
}

#[test]
fn empty_post_without_image_is_refused() {
    assert_eq!(validate_post("  \n", false), Err(Rejection::EmptyPost));
    assert_eq!(validate_post("  \n", true), Ok(()));
    assert_eq!(validate_post("hi", false), Ok(()));
}

#[test]
fn redirects_after_posting() {
    assert_eq!(post_redirect("b", None), "/b/");
    assert_eq!(post_redirect("b", Some(12)), "/b/thread/12");
    assert_eq!(post_redirect("g", Some(-3)), "/g/thread/-3");
}

#[test]
fn submitting_a_thread_stores_formatted_content() {
    let mut s = seeded_store();
    let url = create_thread(&mut s, "b", "hi <b>\r\n>>7", None, None).unwrap();
    assert_eq!(url, "/b/");
    let p = &s.get_posts()[0];
    assert_eq!(p.author_id, "44abd7c30e13c97d");
    assert_eq!(p.content, "hi &lt;b&gt;<br><a href=\"#p7\" class=\"quote-link\">&gt;&gt;7</a>");
    assert_eq!(p.thread_id, None);
}

#[test]
fn submitting_a_reply_goes_to_the_thread() {
    let mut s = seeded_store();
    let t = s.insert_post_at(at(1), "g", None, "x", "op", None, None).unwrap();
    let url = create_reply(&mut s, "g", t, "", Some("f.png"), Some("orig.png")).unwrap();
    assert_eq!(url, format!("/g/thread/{}", t));
    let posts = s.get_posts();
    assert_eq!(posts[1].thread_id, Some(t));
    assert_eq!(posts[1].image_path.as_deref(), Some("f.png"));
    assert_eq!(posts[1].author_id, "922fcc5a908c15b7");
    assert_eq!(posts[0].bump_time, posts[1].created_at);
}

#[test]
fn submitting_an_empty_post_is_refused() {
    let mut s = seeded_store();
    assert_eq!(create_thread(&mut s, "b", " \t ", None, None), Err(Rejection::EmptyPost));
    assert!(s.get_posts().is_empty());
}

#[test]
fn submitting_when_ids_are_exhausted_is_refused() {
    let mut s = Store::from_parts(Vec::new(), Vec::new(), 0, i64::MAX).unwrap();
    assert_eq!(create_thread(&mut s, "b", "x", None, None), Err(Rejection::Storage(StoreError::Full)));
}

#[test]
fn board_and_thread_pages() {
    let mut s = seeded_store();
    assert_eq!(index(&s).len(), 5);
    let t = s.insert_post_at(at(1), "b", None, "x", "op", None, None).unwrap();
    let page = board(&s, "b").ok().unwrap();
    assert_eq!(page.board.slug, "b");
    assert_eq!(page.threads.len(), 1);
    assert_eq!(page.boards.len(), 5);
    assert_eq!(board(&s, "zz").err(), Some(Rejection::BoardNotFound));
    let tp = thread(&s, "b", t).ok().unwrap();
    assert_eq!(tp.thread.op.id, t);
    assert_eq!(thread(&s, "zz", t).err(), Some(Rejection::BoardNotFound));
    assert_eq!(thread(&s, "b", t + 1).err(), Some(Rejection::ThreadNotFound));
    assert!(thread(&s, "g", t).is_ok());
}

#[test]
fn admin_pages_need_the_cookie() {
    let mut s = seeded_store();
    assert_eq!(admin_dashboard(&s, None).err(), Some(Rejection::Unauthorized));
    assert_eq!(admin_boards(&s, Some("x=1")).err(), Some(Rejection::Unauthorized));
    assert_eq!(admin_create_board(&mut s, None, "c", "C", ""), Err(Rejection::Unauthorized));
    assert_eq!(admin_delete_board(&mut s, None, "b"), Err(Rejection::Unauthorized));
    assert_eq!(admin_edit_board_form(&s, None, "b").err(), Some(Rejection::Unauthorized));
    assert_eq!(admin_update_board(&mut s, None, "b", "X", ""), Err(Rejection::Unauthorized));
    assert_eq!(admin_posts(&s, None, &Pagination::default()).err(), Some(Rejection::Unauthorized));
    assert_eq!(admin_delete_post(&mut s, None, 1), Err(Rejection::Unauthorized));
    assert_eq!(admin_lock_thread(&mut s, None, 1), Err(Rejection::Unauthorized));
    let q = MoveQuery { target_board: "g".to_string() };
    assert_eq!(admin_move_thread(&mut s, None, 1, &q), Err(Rejection::Unauthorized));
    assert_eq!(get_boards(&s).len(), 5);
}

#[test]
fn admin_dashboard_counts() {
    let mut s = seeded_store();
    s.insert_post_at(at(1), "b", None, "x", "op", None, None).unwrap();
    let d = admin_dashboard(&s, MOD).ok().unwrap();
    assert_eq!(d.boards.len(), 5);
    assert_eq!(d.stats, AdminStats { total_boards: 5, total_posts: 1, total_threads: 1 });
    assert_eq!(AdminStats::default(), AdminStats { total_boards: 0, total_posts: 0, total_threads: 0 });
}

#[test]
fn admin_manages_boards() {
    let mut s = seeded_store();
    assert_eq!(admin_create_board(&mut s, MOD, "", "C", ""), Err(Rejection::MissingSlugOrName));
    assert_eq!(admin_create_board(&mut s, MOD, "c", "", ""), Err(Rejection::MissingSlugOrName));
    assert_eq!(admin_create_board(&mut s, MOD, "c", "Cooking", "Food"), Ok("/admin/boards".to_string()));
    assert_eq!(admin_create_board(&mut s, MOD, "c", "Again", ""), Err(Rejection::Storage(StoreError::DuplicateSlug)));
    assert_eq!(admin_edit_board_form(&s, MOD, "c").ok().unwrap().name, "Cooking");
    assert_eq!(admin_edit_board_form(&s, MOD, "zz").err(), Some(Rejection::BoardNotFound));
    assert_eq!(admin_update_board(&mut s, MOD, "c", "", "x"), Err(Rejection::MissingName));
    assert_eq!(admin_update_board(&mut s, MOD, "c", "Kitchen", "x"), Ok("/admin/boards".to_string()));
    assert_eq!(get_board(&s, "c").unwrap().name, "Kitchen");
    assert_eq!(admin_delete_board(&mut s, MOD, "c"), Ok("/admin/boards".to_string()));
    assert!(get_board(&s, "c").is_none());
    assert_eq!(admin_boards(&s, MOD).ok().unwrap().len(), 5);
}

#[test]
fn admin_manages_posts() {
    let mut s = seeded_store();
    let t = s.insert_post_at(at(1), "b", None, "x", "op", None, None).unwrap();
    s.insert_post_at(at(2), "b", Some(t), "y", "re", None, None).unwrap();
    let q = MoveQuery { target_board: "v".to_string() };
    assert_eq!(admin_move_thread(&mut s, MOD, t, &q), Ok("/admin/posts".to_string()));
    assert!(s.get_posts().iter().all(|p| p.board_slug == "v"));
    assert_eq!(admin_lock_thread(&mut s, MOD, t), Ok("/admin/posts".to_string()));
    assert_eq!(s.get_posts()[0].content, "[LOCKED] op");
    assert_eq!(admin_delete_post(&mut s, MOD, t), Ok("/admin/posts".to_string()));
    assert!(s.get_posts().is_empty());
}

#[test]
fn admin_posts_pages() {
    let mut s = seeded_store();
    for i in 0..60 {
        s.insert_post_at(at(i), "b", None, "x", "p", None, None).unwrap();
    }
    let p1 = admin_posts(&s, MOD, &Pagination { page: None }).ok().unwrap();
    assert_eq!((p1.current_page, p1.total_pages, p1.posts.len()), (1, 2, 50));
    assert_eq!(p1.posts[0].id, 60);
    let p2 = admin_posts(&s, MOD, &Pagination { page: Some(2) }).ok().unwrap();
    assert_eq!((p2.current_page, p2.posts.len()), (2, 10));
    assert_eq!(p2.posts[0].id, 10);
    let p0 = admin_posts(&s, MOD, &Pagination { page: Some(-4) }).ok().unwrap();
    assert_eq!(p0.current_page, 1);
    let p9 = admin_posts(&s, MOD, &Pagination { page: Some(9) }).ok().unwrap();
    assert!(p9.posts.is_empty());
}

#[test]
fn page_numbers_and_counts() {
    assert_eq!(page_number(&Pagination { page: None }), 1);
    assert_eq!(page_number(&Pagination { page: Some(0) }), 1);
    assert_eq!(page_number(&Pagination { page: Some(3) }), 3);
    assert_eq!(page_number(&Pagination::default()), 1);
    assert_eq!(total_pages(0), 0);
    assert_eq!(total_pages(1), 1);
    assert_eq!(total_pages(50), 1);
    assert_eq!(total_pages(51), 2);
    assert_eq!(total_pages(100), 2);
}

#[test]
fn posting_to_a_missing_board_is_refused() {
    let mut s = seeded_store();
    assert_eq!(create_thread(&mut s, "nope", "hi", None, None), Err(Rejection::Storage(StoreError::ForeignKey)));
    assert_eq!(create_reply(&mut s, "b", 42, "hi", None, None), Err(Rejection::Storage(StoreError::ForeignKey)));
    assert!(s.get_posts().is_empty());
    let r = Rejection::Storage(StoreError::ForeignKey);
    assert_eq!(r.status(), 500);
    assert_eq!(r.message(), "error returned from database: (code: 787) FOREIGN KEY constraint failed");
}

#[test]
fn moderator_errors_from_the_store_are_server_errors() {
    let mut s = seeded_store();
    let t = s.insert_post_at(at(1), "b", None, "x", "op", None, None).unwrap();
    let q = MoveQuery { target_board: "nope".to_string() };
    assert_eq!(admin_move_thread(&mut s, MOD, t, &q), Err(Rejection::Storage(StoreError::ForeignKey)));
    s.insert_post_at(at(2), "g", Some(t), "x", "re", None, None).unwrap();
    assert_eq!(admin_delete_board(&mut s, MOD, "b"), Err(Rejection::Storage(StoreError::ForeignKey)));
}
