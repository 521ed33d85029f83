use vstd::prelude::*;
use crate::text::{
    chars_of, occurs_at, occurs_at_exec, decimal, decimal_string, push_char, push_str, same_text,
    is_blank, is_blank_text, format_content, content_lines_html, regex_replace_all,
    QUOTE_PATTERN, QUOTE_LINK,
};
use crate::author::{generate_author_id, author_id_of};
use crate::models::{AdminStats, Board, Post, PostV, PostWithBoard, Thread};
use crate::db;
use crate::db::{
    opt_text_of, listing_views, listing_limit, from_position, any_post, keep_where, not_picked,
    in_thread, on_board, slug_is_not, locked_posts, moved_posts, renamed_boards, has_slug,
    opening_post, window_count,
    Store, StoreError, StoreV, PostOrder, board_named, board_views, post_views, thread_ops, is_top,
    opening_posts_on, replies_to, count_where, has_opening_post, THREADS_PER_BOARD_PAGE,
    REPLIES_PER_PREVIEW, listed_count, new_post_references_hold, removal_keeps_references,
};

verus! {

/// The moderators' password.
pub const ADMIN_PASSWORD: &'static str = "admin123";

/// How many posts a page of the moderators' listing shows.
pub const POSTS_PER_PAGE: i64 = 50;

/// The address every poster's author id is made from.
pub const POSTER_IP: &'static str = "127.0.0.1";

/// The cookie name, with its `=`, that marks a moderator's session.
pub const SESSION_COOKIE_KEY: &'static str = "admin_session=";

/// What follows the token in the session cookie.
pub const SESSION_COOKIE_ATTRIBUTES: &'static str = "; Path=/; HttpOnly; Max-Age=86400";

/// The page asked for in the moderators' listing.
pub struct Pagination {
    pub page: Option<i64>,
}

impl Default for Pagination {
    fn default() -> (r: Pagination)
        ensures
            r.page == Some(1i64),
    {
        Pagination { page: Some(1) }
    }
}

/// Where a moderator moves a thread to.
pub struct MoveQuery {
    pub target_board: String,
}

/// The value of the cookie that starts `rest`: everything up to the first `;` (or the end).
pub open spec fn cookie_value(rest: Seq<char>) -> Seq<char>
    decreases rest.len(),
{
    if rest.len() == 0 || rest[0] == ';' {
        Seq::empty()
    } else {
        seq![rest[0]] + cookie_value(rest.drop_first())
    }
}

/// A cookie (a `name=value` pair) may start at position `i` of the Cookie header `c`: at its
/// start, or right after a `;` or a space.
pub open spec fn pair_starts_at(c: Seq<char>, i: int) -> bool {
    i == 0 || (0 < i <= c.len() && (c[i - 1] == ';' || c[i - 1] == ' '))
}

/// At position `i` of the Cookie header `c` stands the session cookie, and its value is one
/// of the tokens `sessions`.
pub open spec fn session_cookie_at(c: Seq<char>, i: int, sessions: Seq<Seq<char>>) -> bool {
    &&& occurs_at(c, SESSION_COOKIE_KEY@, i)
    &&& pair_starts_at(c, i)
    &&& sessions.contains(cookie_value(c.skip(i + SESSION_COOKIE_KEY@.len())))
}

/// The Cookie header `c` carries a session cookie whose value is one of the tokens `sessions`.
pub open spec fn holds_session(c: Seq<char>, sessions: Seq<Seq<char>>) -> bool {
    exists|i: int| #[trigger] session_cookie_at(c, i, sessions)
}

/// A request is a moderator's where its Cookie header (if any, and if readable as text)
/// carries a session cookie with a token that a login handed out.
pub open spec fn is_moderator(sessions: Seq<Seq<char>>, cookie_header: Option<&str>) -> bool {
    match cookie_header {
        Some(c) => holds_session(c@, sessions),
        None => false,
    }
}

/// The value of the cookie that starts at position `start` of `h`.
fn cookie_value_from(h: &Vec<char>, start: usize) -> (v: String)
    requires
        start <= h@.len(),
    ensures
        v@ == cookie_value(h@.skip(start as int)),
{
    let mut v = String::new();
    let mut k: usize = start;
    assert(v@ + cookie_value(h@.skip(start as int)) =~= cookie_value(h@.skip(start as int)));
    while k < h.len() && h[k] != ';'
        invariant
            start <= k <= h@.len(),
            cookie_value(h@.skip(start as int)) == v@ + cookie_value(h@.skip(k as int)),
        decreases h@.len() - k,
    {
        let ghost before = v@;
        assert(h@.skip(k as int).drop_first() =~= h@.skip(k + 1));
        assert(h@.skip(k as int)[0] == h@[k as int]);
        push_char(&mut v, h[k]);
        assert(v@ + cookie_value(h@.skip(k + 1)) =~= before + cookie_value(h@.skip(k as int)));
        k = k + 1;
    }
    assert(cookie_value(h@.skip(k as int)) =~= Seq::<char>::empty()) by {
        if k < h.len() {
            assert(h@.skip(k as int)[0] == ';');
        }
    }
    assert(v@ + Seq::<char>::empty() =~= v@);
    v
}

/// Whether a request with this Cookie header is a moderator's: it must carry the session
/// cookie with a token that a login handed out.
pub fn check_admin_auth(store: &Store, cookie_header: Option<&str>) -> (r: bool)
    ensures
        r == is_moderator(store@.sessions, cookie_header),
{
    match cookie_header {
        None => false,
        Some(c) => {
            let h = chars_of(c);
            let key = chars_of(SESSION_COOKIE_KEY);
            let ghost ss = store@.sessions;
            proof {
                reveal_strlit("admin_session=");
            }
            assert(key@.len() > 0);
            for i in 0..h.len()
                invariant
                    cookie_header == Some(c),
                    h@ == c@,
                    key@ == SESSION_COOKIE_KEY@,
                    key@.len() > 0,
                    ss == store@.sessions,
                    forall|k: int| 0 <= k < i ==> !#[trigger] session_cookie_at(h@, k, ss),
            {
                if key.len() <= h.len() - i && occurs_at_exec(&h, &key, i) && (i == 0 || h[i - 1] == ';'
                    || h[i - 1] == ' ') {
                    let v = cookie_value_from(&h, i + key.len());
                    if store.has_session(v.as_str()) {
                        assert(session_cookie_at(c@, i as int, ss));
                        return true;
                    }
                }
            }
            assert forall|k: int| !#[trigger] session_cookie_at(h@, k, ss) by {
                if k >= h@.len() {
                    assert(!occurs_at(h@, key@, k));
                }
            }
            false
        },
    }
}

/// A lowercase hex digit.
pub open spec fn is_lower_hex_digit(c: char) -> bool {
    ('0' <= c && c <= '9') || ('a' <= c && c <= 'f')
}

/// Text in the shape of a hyphenated UUID: 36 chars, `-` at positions 8, 13, 18 and 23,
/// lowercase hex digits elsewhere.
pub open spec fn is_uuid_text(t: Seq<char>) -> bool {
    &&& t.len() == 36
    &&& forall|i: int|
        0 <= i < 36 ==> if i == 8 || i == 13 || i == 18 || i == 23 {
            t[i] == '-'
        } else {
            is_lower_hex_digit(#[trigger] t[i])
        }
}

/// Text of a random (version 4, RFC variant) UUID: UUID-shaped, with the version digit `4`
/// at position 14 and one of `8`, `9`, `a`, `b` at position 19.
pub open spec fn is_random_uuid_text(t: Seq<char>) -> bool {
    &&& is_uuid_text(t)
    &&& t[14] == '4'
    &&& (t[19] == '8' || t[19] == '9' || t[19] == 'a' || t[19] == 'b')
}

/// A fresh random identifier.
/// Trusted: calls `uuid::Uuid::new_v4`, which masks random bits so that the version nibble is
/// 4 and the variant bits are `10`, and writes it with `to_string`, which (in the crate's
/// `fmt` module) gives the hyphenated lowercase form. Its value is random: only its shape,
/// version and variant are stated.
#[verifier::external_body]
fn new_uuid_text() -> (t: String)
    ensures
        is_random_uuid_text(t@),
{
    uuid::Uuid::new_v4().to_string()
}

/// The `Set-Cookie` value that opens a moderator's session with `token`.
pub open spec fn session_cookie(token: Seq<char>) -> Seq<char> {
    SESSION_COOKIE_KEY@ + token + SESSION_COOKIE_ATTRIBUTES@
}

/// How a login attempt ends.
pub enum LoginOutcome {
    /// The password was right: send this `Set-Cookie` value and go to the dashboard.
    Granted { cookie: String },
    /// The password was wrong.
    Refused,
}

/// A login with `password`, where `token` would name the new session: where the password is
/// right, the token is kept as a moderator's session and the cookie that carries it is given.
pub fn login_with_token(store: &mut Store, password: &str, token: &str) -> (r: LoginOutcome)
    requires
        old(store).wf(),
    ensures
        final(store).wf(),
        password@ == ADMIN_PASSWORD@ ==> r is Granted && r->cookie@ == session_cookie(token@)
            && final(store)@ == old(store)@.with_session(token@),
        password@ != ADMIN_PASSWORD@ ==> r is Refused && final(store)@ == old(store)@,
{
    if same_text(password, ADMIN_PASSWORD) {
        store.add_session(token);
        let mut cookie = String::new();
        push_str(&mut cookie, SESSION_COOKIE_KEY);
        push_str(&mut cookie, token);
        push_str(&mut cookie, SESSION_COOKIE_ATTRIBUTES);
        LoginOutcome::Granted { cookie }
    } else {
        LoginOutcome::Refused
    }
}

/// A login with `password`: where it is the moderators' password, a fresh random token is
/// kept as a session and the cookie that carries it is given.
pub fn admin_login(store: &mut Store, password: &str) -> (r: LoginOutcome)
    requires
        old(store).wf(),
    ensures
        final(store).wf(),
        r is Granted <==> password@ == ADMIN_PASSWORD@,
        r is Refused ==> final(store)@ == old(store)@,
        r is Granted ==> exists|token: Seq<char>|
            is_random_uuid_text(token) && r->cookie@ == session_cookie(token) && final(store)@
                == old(store)@.with_session(token),
{
    let token = new_uuid_text();
    login_with_token(store, password, token.as_str())
}

/// Why a request is refused, and with which status and message.
#[derive(Clone, Copy, Debug, PartialEq, Eq, Structural)]
pub enum Rejection {
    Unauthorized,
    InvalidPassword,
    BoardNotFound,
    ThreadNotFound,
    EmptyPost,
    MissingSlugOrName,
    MissingName,
    /// The post's HTML could not be made (the quote pattern did not compile).
    Formatting,
    Storage(StoreError),
}

pub const UNAUTHORIZED_MESSAGE: &'static str = "Unauthorized";
pub const INVALID_PASSWORD_MESSAGE: &'static str = "Invalid password";
pub const BOARD_NOT_FOUND_MESSAGE: &'static str = "Board not found";
pub const THREAD_NOT_FOUND_MESSAGE: &'static str = "Thread not found";
pub const EMPTY_POST_MESSAGE: &'static str = "Post must have content or image";
pub const MISSING_SLUG_OR_NAME_MESSAGE: &'static str = "Slug and name are required";
pub const MISSING_NAME_MESSAGE: &'static str = "Name is required";
pub const FORMATTING_MESSAGE: &'static str = "Post content could not be formatted";
pub const DUPLICATE_SLUG_MESSAGE: &'static str = "error returned from database: (code: 2067) UNIQUE constraint failed: boards.slug";
pub const FULL_MESSAGE: &'static str = "error returned from database: (code: 13) database or disk is full";
pub const FOREIGN_KEY_MESSAGE: &'static str = "error returned from database: (code: 787) FOREIGN KEY constraint failed";

/// The HTTP status a rejection is answered with.
pub open spec fn status_of(r: Rejection) -> u16 {
    match r {
        Rejection::Unauthorized => 401,
        Rejection::InvalidPassword => 401,
        Rejection::BoardNotFound => 404,
        Rejection::ThreadNotFound => 404,
        Rejection::EmptyPost => 400,
        Rejection::MissingSlugOrName => 400,
        Rejection::MissingName => 400,
        Rejection::Formatting => 500,
        Rejection::Storage(_) => 500,
    }
}

/// The body text a rejection is answered with.
pub open spec fn message_of(r: Rejection) -> Seq<char> {
    match r {
        Rejection::Unauthorized => UNAUTHORIZED_MESSAGE@,
        Rejection::InvalidPassword => INVALID_PASSWORD_MESSAGE@,
        Rejection::BoardNotFound => BOARD_NOT_FOUND_MESSAGE@,
        Rejection::ThreadNotFound => THREAD_NOT_FOUND_MESSAGE@,
        Rejection::EmptyPost => EMPTY_POST_MESSAGE@,
        Rejection::MissingSlugOrName => MISSING_SLUG_OR_NAME_MESSAGE@,
        Rejection::MissingName => MISSING_NAME_MESSAGE@,
        Rejection::Formatting => FORMATTING_MESSAGE@,
        Rejection::Storage(StoreError::DuplicateSlug) => DUPLICATE_SLUG_MESSAGE@,
        Rejection::Storage(StoreError::Full) => FULL_MESSAGE@,
        Rejection::Storage(StoreError::ForeignKey) => FOREIGN_KEY_MESSAGE@,
    }
}

impl Rejection {
    /// The HTTP status of this rejection.
    pub fn status(&self) -> (r: u16)
        ensures
            r == status_of(*self),
    {
        match self {
            Rejection::Unauthorized => 401,
            Rejection::InvalidPassword => 401,
            Rejection::BoardNotFound => 404,
            Rejection::ThreadNotFound => 404,
            Rejection::EmptyPost => 400,
            Rejection::MissingSlugOrName => 400,
            Rejection::MissingName => 400,
            Rejection::Formatting => 500,
            Rejection::Storage(_) => 500,
        }
    }

    /// The body text of this rejection.
    pub fn message(&self) -> (r: String)
        ensures
            r@ == message_of(*self),
    {
        let text = match self {
            Rejection::Unauthorized => UNAUTHORIZED_MESSAGE,
            Rejection::InvalidPassword => INVALID_PASSWORD_MESSAGE,
            Rejection::BoardNotFound => BOARD_NOT_FOUND_MESSAGE,
            Rejection::ThreadNotFound => THREAD_NOT_FOUND_MESSAGE,
            Rejection::EmptyPost => EMPTY_POST_MESSAGE,
            Rejection::MissingSlugOrName => MISSING_SLUG_OR_NAME_MESSAGE,
            Rejection::MissingName => MISSING_NAME_MESSAGE,
            Rejection::Formatting => FORMATTING_MESSAGE,
            Rejection::Storage(StoreError::DuplicateSlug) => DUPLICATE_SLUG_MESSAGE,
            Rejection::Storage(StoreError::Full) => FULL_MESSAGE,
            Rejection::Storage(StoreError::ForeignKey) => FOREIGN_KEY_MESSAGE,
        };
        String::from_str(text)
    }
}

/// What a board page shows.
pub struct BoardPage {
    pub boards: Vec<Board>,
    pub board: Board,
    pub threads: Vec<Thread>,
}

/// What a thread page shows.
pub struct ThreadPage {
    pub boards: Vec<Board>,
    pub board: Board,
    pub thread: Thread,
}

/// The front page: every board, by slug.
pub fn index(store: &Store) -> (r: Vec<Board>)
    requires
        store.wf(),
    ensures
        board_views(r@) == store@.boards,
{
    db::get_boards(store)
}

/// The page of the board `board_slug`: `BoardNotFound` where there is no such board.
pub fn board(store: &Store, board_slug: &str) -> (r: Result<BoardPage, Rejection>)
    requires
        store.wf(),
    ensures
        r is Err <==> board_named(store@.boards, board_slug@) is None,
        r is Err ==> r->Err_0 == Rejection::BoardNotFound,
        match r {
            Ok(page) => {
                &&& board_views(page.boards@) == store@.boards
                &&& board_named(store@.boards, board_slug@) == Some(page.board@)
                &&& is_top(
                    store@.posts,
                    opening_posts_on(board_slug@),
                    PostOrder::BumpedFirst,
                    Some(THREADS_PER_BOARD_PAGE as nat),
                    thread_ops(page.threads@),
                )
                &&& forall|i: int|
                    0 <= i < page.threads@.len() ==> is_top(
                        store@.posts,
                        replies_to(#[trigger] page.threads@[i].op.id),
                        PostOrder::NewestFirst,
                        Some(REPLIES_PER_PREVIEW as nat),
                        post_views(page.threads@[i].replies@).reverse(),
                    )
                &&& forall|i: int|
                    0 <= i < page.threads@.len() ==> #[trigger] page.threads@[i].reply_count
                        == count_where(store@.posts, replies_to(page.threads@[i].op.id))
                &&& forall|i: int|
                    0 <= i < page.threads@.len() ==> #[trigger] page.threads@[i].replies@.len()
                        == listed_count(page.threads@[i].reply_count as nat, Some(REPLIES_PER_PREVIEW as nat))
                &&& page.threads@.len() == listed_count(
                    count_where(store@.posts, opening_posts_on(board_slug@)),
                    Some(THREADS_PER_BOARD_PAGE as nat),
                )
            },
            Err(_) => true,
        },
{
    let boards = db::get_boards(store);
    let b = match db::get_board(store, board_slug) {
        Some(b) => b,
        None => return Err(Rejection::BoardNotFound),
    };
    let threads = db::get_threads(store, board_slug);
    Ok(BoardPage { boards, board: b, threads })
}

/// The page of the thread `thread_id` under the board `board_slug`: `BoardNotFound` where
/// there is no such board, else `ThreadNotFound` where `thread_id` is no opening post. (The
/// thread need not be on that board.)
pub fn thread(store: &Store, board_slug: &str, thread_id: i64) -> (r: Result<ThreadPage, Rejection>)
    requires
        store.wf(),
    ensures
        board_named(store@.boards, board_slug@) is None ==> r == Err::<ThreadPage, Rejection>(Rejection::BoardNotFound),
        board_named(store@.boards, board_slug@) is Some && !has_opening_post(store@.posts, thread_id)
            ==> r == Err::<ThreadPage, Rejection>(Rejection::ThreadNotFound),
        r is Ok <==> board_named(store@.boards, board_slug@) is Some && has_opening_post(store@.posts, thread_id),
        match r {
            Ok(page) => {
                &&& board_views(page.boards@) == store@.boards
                &&& board_named(store@.boards, board_slug@) == Some(page.board@)
                &&& store@.posts.contains(page.thread.op@)
                &&& page.thread.op.id == thread_id
                &&& page.thread.op.thread_id is None
                &&& is_top(store@.posts, replies_to(thread_id), PostOrder::OldestFirst, None, post_views(page.thread.replies@))
                &&& page.thread.reply_count == count_where(store@.posts, replies_to(thread_id))
                &&& page.thread.replies@.len() == page.thread.reply_count
            },
            Err(_) => true,
        },
{
    let boards = db::get_boards(store);
    let b = match db::get_board(store, board_slug) {
        Some(b) => b,
        None => return Err(Rejection::BoardNotFound),
    };
    let t = match db::get_thread(store, thread_id) {
        Some(t) => t,
        None => return Err(Rejection::ThreadNotFound),
    };
    Ok(ThreadPage { boards, board: b, thread: t })
}

// ---------------------------------------------------------------- posting

/// The name of the form field that holds a post's text.
pub const CONTENT_FIELD: &'static str = "content";

/// The name of the form field that holds a post's image.
pub const IMAGE_FIELD: &'static str = "image";

/// What a field of a post form is.
#[derive(Clone, Copy, Debug, PartialEq, Eq, Structural)]
pub enum PostField {
    Content,
    Image,
    Other,
}

/// The kind of the post form field named `name`.
pub fn post_field_kind(name: &str) -> (r: PostField)
    ensures
        r == if name@ == CONTENT_FIELD@ {
            PostField::Content
        } else if name@ == IMAGE_FIELD@ {
            PostField::Image
        } else {
            PostField::Other
        },
{
    if same_text(name, CONTENT_FIELD) {
        PostField::Content
    } else if same_text(name, IMAGE_FIELD) {
        PostField::Image
    } else {
        PostField::Other
    }
}

/// The part of a file name after its last `.` (the whole name where it has none).
pub open spec fn extension_of(name: Seq<char>) -> Seq<char>
    decreases name.len(),
{
    if name.len() == 0 {
        Seq::empty()
    } else if name.last() == '.' {
        Seq::empty()
    } else {
        extension_of(name.drop_last()).push(name.last())
    }
}

/// `extension_of(name@)`: what `name.rsplit('.').next()` gives.
pub fn file_extension(name: &str) -> (r: String)
    ensures
        r@ == extension_of(name@),
{
    let cs = chars_of(name);
    let mut start: usize = 0;
    for i in 0..cs.len()
        invariant
            start <= i,
            extension_of(cs@.take(i as int)) == cs@.subrange(start as int, i as int),
    {
        assert(cs@.take(i + 1).drop_last() =~= cs@.take(i as int));
        if cs[i] == '.' {
            start = i + 1;
            assert(cs@.subrange(start as int, i + 1) =~= Seq::<char>::empty());
        } else {
            assert(cs@.subrange(start as int, i + 1) =~= cs@.subrange(start as int, i as int).push(cs@[i as int]));
        }
    }
    assert(cs@.take(cs.len() as int) =~= cs@);
    let mut out = String::new();
    for i in start..cs.len()
        invariant
            start <= cs.len(),
            out@ == cs@.subrange(start as int, i as int),
    {
        push_char(&mut out, cs[i]);
        assert(out@ =~= cs@.subrange(start as int, i + 1));
    }
    out
}

/// Where uploaded images are kept, with the `/` after it.
pub const UPLOAD_DIR: &'static str = "uploads/";

/// An image to keep with a post: the name it is stored under, the path of its file, and the
/// name it was uploaded with.
pub struct ImageUpload {
    pub stored_name: String,
    pub path: String,
    pub uploaded_name: String,
}

/// The name an image uploaded as `name` is stored under, with `token` as its stem.
pub open spec fn stored_name_for(token: Seq<char>, name: Seq<char>) -> Seq<char> {
    token + seq!['.'] + extension_of(name)
}

/// Where an image upload of `data_len` bytes, uploaded as `file_name`, is kept, where `token`
/// names it: nowhere where it is empty or has no file name.
pub fn image_upload_for(token: &str, data_len: usize, file_name: Option<&str>) -> (r: Option<ImageUpload>)
    ensures
        r is Some <==> (data_len > 0 && file_name is Some),
        match r {
            Some(u) => {
                &&& u.stored_name@ == stored_name_for(token@, file_name.unwrap()@)
                &&& u.path@ == UPLOAD_DIR@ + u.stored_name@
                &&& u.uploaded_name@ == file_name.unwrap()@
            },
            None => true,
        },
{
    if data_len == 0 {
        return None;
    }
    match file_name {
        None => None,
        Some(fname) => {
            let ext = file_extension(fname);
            let mut stored = String::new();
            push_str(&mut stored, token);
            push_char(&mut stored, '.');
            push_str(&mut stored, ext.as_str());
            let mut path = String::new();
            push_str(&mut path, UPLOAD_DIR);
            push_str(&mut path, stored.as_str());
            Some(ImageUpload { stored_name: stored, path, uploaded_name: String::from_str(fname) })
        },
    }
}

/// Where an image upload is kept, named by a fresh random identifier.
pub fn plan_image_upload(data_len: usize, file_name: Option<&str>) -> (r: Option<ImageUpload>)
    ensures
        r is Some <==> (data_len > 0 && file_name is Some),
        match r {
            Some(u) => {
                &&& exists|token: Seq<char>|
                    is_random_uuid_text(token) && u.stored_name@ == stored_name_for(token, file_name.unwrap()@)
                &&& u.path@ == UPLOAD_DIR@ + u.stored_name@
                &&& u.uploaded_name@ == file_name.unwrap()@
            },
            None => true,
        },
{
    let token = new_uuid_text();
    image_upload_for(token.as_str(), data_len, file_name)
}

/// A post is refused where its text is blank (all white space) and it has no image.
pub fn validate_post(content: &str, has_image: bool) -> (r: Result<(), Rejection>)
    ensures
        r is Err <==> (is_blank_text(content@) && !has_image),
        r is Err ==> r->Err_0 == Rejection::EmptyPost,
{
    if is_blank(content) && !has_image {
        Err(Rejection::EmptyPost)
    } else {
        Ok(())
    }
}

/// Where a poster goes after posting: the board page for a new thread, the thread page for a
/// reply.
pub open spec fn after_post_url(board_slug: Seq<char>, thread_id: Option<i64>) -> Seq<char> {
    match thread_id {
        None => seq!['/'] + board_slug + seq!['/'],
        Some(t) => seq!['/'] + board_slug + seq!['/', 't', 'h', 'r', 'e', 'a', 'd', '/'] + decimal(t as int),
    }
}

/// `after_post_url(board_slug@, thread_id)`.
pub fn post_redirect(board_slug: &str, thread_id: Option<i64>) -> (r: String)
    ensures
        r@ == after_post_url(board_slug@, thread_id),
{
    let mut out = String::new();
    push_char(&mut out, '/');
    push_str(&mut out, board_slug);
    push_char(&mut out, '/');
    match thread_id {
        None => {},
        Some(t) => {
            push_char(&mut out, 't');
            push_char(&mut out, 'h');
            push_char(&mut out, 'r');
            push_char(&mut out, 'e');
            push_char(&mut out, 'a');
            push_char(&mut out, 'd');
            push_char(&mut out, '/');
            let d = decimal_string(t);
            push_str(&mut out, d.as_str());
        },
    }
    assert(out@ =~= after_post_url(board_slug@, thread_id));
    out
}

/// Stores a post whose HTML is `html` (made now, with the next id) and gives where the
/// poster goes next; an error where ids have run out or a reference does not hold.
pub fn store_post(
    store: &mut Store,
    board_slug: &str,
    thread_id: Option<i64>,
    author_id: &str,
    html: &str,
    image_path: Option<&str>,
    image_name: Option<&str>,
) -> (r: Result<String, Rejection>)
    requires
        old(store).wf(),
    ensures
        final(store).wf(),
        old(store)@.last_post_id == i64::MAX ==> r == Err::<String, Rejection>(Rejection::Storage(StoreError::Full))
            && final(store)@ == old(store)@,
        old(store)@.last_post_id < i64::MAX && !new_post_references_hold(old(store)@, board_slug@, thread_id)
            ==> r == Err::<String, Rejection>(Rejection::Storage(StoreError::ForeignKey)) && final(store)@ == old(store)@,
        old(store)@.last_post_id < i64::MAX && new_post_references_hold(old(store)@, board_slug@, thread_id)
            ==> r is Ok && r->Ok_0@ == after_post_url(board_slug@, thread_id)
            && final(store)@ == old(store)@.with_new_post(
            board_slug@,
            thread_id,
            author_id@,
            html@,
            opt_text_of(image_path),
            opt_text_of(image_name),
            final(store)@.posts.last().created_at,
        ),
{
    match db::create_post(store, board_slug, thread_id, author_id, html, image_path, image_name) {
        Ok(_) => Ok(post_redirect(board_slug, thread_id)),
        Err(e) => Err(Rejection::Storage(e)),
    }
}

/// The HTML a post's text becomes, as `format_content` makes it.
pub open spec fn post_html(content: Seq<char>) -> Option<Seq<char>> {
    regex_replace_all(QUOTE_PATTERN@, content_lines_html(content), QUOTE_LINK@)
}

/// What posting from `POSTER_IP` does, going from `before` to `after` with answer `r`: an
/// empty post (blank text, no image) is refused; a post whose HTML cannot be made is refused;
/// otherwise the post is stored with that HTML and the author id of `POSTER_IP` on the board,
/// made now with the next id (a reply bumps its thread), and the poster is sent on; where ids
/// have run out, or the board or the post replied to does not exist, it is refused. Nothing
/// changes where it is refused.
pub open spec fn post_submitted(
    before: StoreV,
    after: StoreV,
    r: Result<String, Rejection>,
    board_slug: Seq<char>,
    thread_id: Option<i64>,
    content: Seq<char>,
    image_path: Option<Seq<char>>,
    image_name: Option<Seq<char>>,
) -> bool {
    if is_blank_text(content) && image_path is None {
        r == Err::<String, Rejection>(Rejection::EmptyPost) && after == before
    } else if post_html(content) is None {
        r == Err::<String, Rejection>(Rejection::Formatting) && after == before
    } else if before.last_post_id == i64::MAX {
        r == Err::<String, Rejection>(Rejection::Storage(StoreError::Full)) && after == before
    } else if !new_post_references_hold(before, board_slug, thread_id) {
        r == Err::<String, Rejection>(Rejection::Storage(StoreError::ForeignKey)) && after == before
    } else {
        &&& r is Ok
        &&& r->Ok_0@ == after_post_url(board_slug, thread_id)
        &&& after == before.with_new_post(
            board_slug,
            thread_id,
            author_id_of(POSTER_IP@, board_slug),
            post_html(content)->0,
            image_path,
            image_name,
            after.posts.last().created_at,
        )
    }
}

fn submit_post(
    store: &mut Store,
    board_slug: &str,
    thread_id: Option<i64>,
    content: &str,
    image_path: Option<&str>,
    image_name: Option<&str>,
) -> (r: Result<String, Rejection>)
    requires
        old(store).wf(),
    ensures
        final(store).wf(),
        post_submitted(
            old(store)@,
            final(store)@,
            r,
            board_slug@,
            thread_id,
            content@,
            opt_text_of(image_path),
            opt_text_of(image_name),
        ),
{
    validate_post(content, image_path.is_some())?;
    let author_id = generate_author_id(POSTER_IP, board_slug);
    let html = match format_content(content) {
        Some(h) => h,
        None => return Err(Rejection::Formatting),
    };
    store_post(store, board_slug, thread_id, author_id.as_str(), html.as_str(), image_path, image_name)
}

/// A new thread on the board `board_slug`, as `post_submitted` says.
pub fn create_thread(
    store: &mut Store,
    board_slug: &str,
    content: &str,
    image_path: Option<&str>,
    image_name: Option<&str>,
) -> (r: Result<String, Rejection>)
    requires
        old(store).wf(),
    ensures
        final(store).wf(),
        post_submitted(
            old(store)@,
            final(store)@,
            r,
            board_slug@,
            None,
            content@,
            opt_text_of(image_path),
            opt_text_of(image_name),
        ),
{
    submit_post(store, board_slug, None, content, image_path, image_name)
}

/// A reply to the thread `thread_id` on the board `board_slug`, as `post_submitted` says.
/// (Nothing is looked up first: a reply to a post that does not exist is refused by the
/// store's reference check, and one to a post that is itself a reply is stored.)
pub fn create_reply(
    store: &mut Store,
    board_slug: &str,
    thread_id: i64,
    content: &str,
    image_path: Option<&str>,
    image_name: Option<&str>,
) -> (r: Result<String, Rejection>)
    requires
        old(store).wf(),
    ensures
        final(store).wf(),
        post_submitted(
            old(store)@,
            final(store)@,
            r,
            board_slug@,
            Some(thread_id),
            content@,
            opt_text_of(image_path),
            opt_text_of(image_name),
        ),
{
    submit_post(store, board_slug, Some(thread_id), content, image_path, image_name)
}

// ---------------------------------------------------------------- moderation

/// Where a moderator goes after changing boards.
pub const ADMIN_BOARDS_URL: &'static str = "/admin/boards";

/// Where a moderator goes after changing posts.
pub const ADMIN_POSTS_URL: &'static str = "/admin/posts";

/// Where a moderator goes after logging in.
pub const ADMIN_DASHBOARD_URL: &'static str = "/admin/dashboard";

/// The names of the fields of a board form.
pub const SLUG_FIELD: &'static str = "slug";
pub const NAME_FIELD: &'static str = "name";
pub const DESCRIPTION_FIELD: &'static str = "description";

/// What a field of a board form is.
#[derive(Clone, Copy, Debug, PartialEq, Eq, Structural)]
pub enum BoardField {
    Slug,
    Name,
    Description,
    Other,
}

/// The kind of the board form field named `name`.
pub fn board_field_kind(name: &str) -> (r: BoardField)
    ensures
        r == if name@ == SLUG_FIELD@ {
            BoardField::Slug
        } else if name@ == NAME_FIELD@ {
            BoardField::Name
        } else if name@ == DESCRIPTION_FIELD@ {
            BoardField::Description
        } else {
            BoardField::Other
        },
{
    if same_text(name, SLUG_FIELD) {
        BoardField::Slug
    } else if same_text(name, NAME_FIELD) {
        BoardField::Name
    } else if same_text(name, DESCRIPTION_FIELD) {
        BoardField::Description
    } else {
        BoardField::Other
    }
}

/// What the moderators' dashboard shows.
pub struct Dashboard {
    pub boards: Vec<Board>,
    pub stats: AdminStats,
}

/// The moderators' dashboard: every board and the counts.
pub fn admin_dashboard(store: &Store, cookie_header: Option<&str>) -> (r: Result<Dashboard, Rejection>)
    requires
        store.wf(),
    ensures
        !is_moderator(store@.sessions, cookie_header) ==> r == Err::<Dashboard, Rejection>(Rejection::Unauthorized),
        is_moderator(store@.sessions, cookie_header) ==> r is Ok,
        match r {
            Ok(d) => {
                &&& board_views(d.boards@) == store@.boards
                &&& d.stats.total_boards == store@.boards.len()
                &&& d.stats.total_posts == store@.posts.len()
                &&& d.stats.total_threads == count_where(store@.posts, opening_post())
            },
            Err(_) => true,
        },
{
    if !check_admin_auth(store, cookie_header) {
        return Err(Rejection::Unauthorized);
    }
    Ok(Dashboard { boards: db::get_boards(store), stats: db::get_admin_stats(store) })
}

/// The moderators' board list.
pub fn admin_boards(store: &Store, cookie_header: Option<&str>) -> (r: Result<Vec<Board>, Rejection>)
    requires
        store.wf(),
    ensures
        !is_moderator(store@.sessions, cookie_header) ==> r == Err::<Vec<Board>, Rejection>(Rejection::Unauthorized),
        is_moderator(store@.sessions, cookie_header) ==> r is Ok && board_views(r->Ok_0@) == store@.boards,
{
    if !check_admin_auth(store, cookie_header) {
        return Err(Rejection::Unauthorized);
    }
    Ok(db::get_boards(store))
}

/// A moderator makes a board: refused where the slug or the name is empty, or where the
/// store refuses it; otherwise the moderator goes back to the board list.
pub fn admin_create_board(
    store: &mut Store,
    cookie_header: Option<&str>,
    slug: &str,
    name: &str,
    description: &str,
) -> (r: Result<String, Rejection>)
    requires
        old(store).wf(),
    ensures
        final(store).wf(),
        !is_moderator(old(store)@.sessions, cookie_header) ==> r == Err::<String, Rejection>(Rejection::Unauthorized)
            && final(store)@ == old(store)@,
        is_moderator(old(store)@.sessions, cookie_header) && (slug@.len() == 0 || name@.len() == 0) ==> r == Err::<
            String,
            Rejection,
        >(Rejection::MissingSlugOrName) && final(store)@ == old(store)@,
        is_moderator(old(store)@.sessions, cookie_header) && slug@.len() > 0 && name@.len() > 0 ==> {
            &&& old(store)@.last_board_id == i64::MAX ==> r == Err::<String, Rejection>(
                Rejection::Storage(StoreError::Full),
            ) && final(store)@ == old(store)@
            &&& old(store)@.last_board_id < i64::MAX && has_slug(old(store)@.boards, slug@) ==> r
                == Err::<String, Rejection>(Rejection::Storage(StoreError::DuplicateSlug))
                && final(store)@ == old(store)@
            &&& old(store)@.last_board_id < i64::MAX && !has_slug(old(store)@.boards, slug@) ==> r
                is Ok && r->Ok_0@ == ADMIN_BOARDS_URL@ && final(store)@ == old(store)@.with_new_board(
                slug@,
                name@,
                description@,
            )
        },
{
    if !check_admin_auth(store, cookie_header) {
        return Err(Rejection::Unauthorized);
    }
    if slug.is_empty() || name.is_empty() {
        return Err(Rejection::MissingSlugOrName);
    }
    match db::create_board(store, slug, name, description) {
        Ok(()) => Ok(String::from_str(ADMIN_BOARDS_URL)),
        Err(e) => Err(Rejection::Storage(e)),
    }
}

/// A moderator deletes the board `slug` and every post on it.
pub fn admin_delete_board(store: &mut Store, cookie_header: Option<&str>, slug: &str) -> (r: Result<String, Rejection>)
    requires
        old(store).wf(),
    ensures
        final(store).wf(),
        !is_moderator(old(store)@.sessions, cookie_header) ==> r == Err::<String, Rejection>(Rejection::Unauthorized)
            && final(store)@ == old(store)@,
        is_moderator(old(store)@.sessions, cookie_header) && removal_keeps_references(old(store)@.posts, on_board(slug@)) ==> r is Ok
            && r->Ok_0@ == ADMIN_BOARDS_URL@ && final(store)@ == old(store)@.with_posts(
            keep_where(old(store)@.posts, not_picked(on_board(slug@))),
        ).with_boards(keep_where(old(store)@.boards, slug_is_not(slug@))),
        is_moderator(old(store)@.sessions, cookie_header) && !removal_keeps_references(old(store)@.posts, on_board(slug@)) ==> r
            == Err::<String, Rejection>(Rejection::Storage(StoreError::ForeignKey)) && final(store)@ == old(store)@,
{
    if !check_admin_auth(store, cookie_header) {
        return Err(Rejection::Unauthorized);
    }
    match db::delete_board(store, slug) {
        Ok(()) => Ok(String::from_str(ADMIN_BOARDS_URL)),
        Err(e) => Err(Rejection::Storage(e)),
    }
}

/// The form to edit the board `slug`.
pub fn admin_edit_board_form(store: &Store, cookie_header: Option<&str>, slug: &str) -> (r: Result<Board, Rejection>)
    requires
        store.wf(),
    ensures
        !is_moderator(store@.sessions, cookie_header) ==> r == Err::<Board, Rejection>(Rejection::Unauthorized),
        is_moderator(store@.sessions, cookie_header) && board_named(store@.boards, slug@) is None ==> r == Err::<
            Board,
            Rejection,
        >(Rejection::BoardNotFound),
        is_moderator(store@.sessions, cookie_header) && board_named(store@.boards, slug@) is Some ==> r is Ok
            && board_named(store@.boards, slug@) == Some(r->Ok_0@),
{
    if !check_admin_auth(store, cookie_header) {
        return Err(Rejection::Unauthorized);
    }
    match db::get_board(store, slug) {
        Some(b) => Ok(b),
        None => Err(Rejection::BoardNotFound),
    }
}

/// A moderator renames the board `slug`: refused where the new name is empty.
pub fn admin_update_board(
    store: &mut Store,
    cookie_header: Option<&str>,
    slug: &str,
    name: &str,
    description: &str,
) -> (r: Result<String, Rejection>)
    requires
        old(store).wf(),
    ensures
        final(store).wf(),
        !is_moderator(old(store)@.sessions, cookie_header) ==> r == Err::<String, Rejection>(Rejection::Unauthorized)
            && final(store)@ == old(store)@,
        is_moderator(old(store)@.sessions, cookie_header) && name@.len() == 0 ==> r == Err::<String, Rejection>(
            Rejection::MissingName,
        ) && final(store)@ == old(store)@,
        is_moderator(old(store)@.sessions, cookie_header) && name@.len() > 0 ==> r is Ok && r->Ok_0@ == ADMIN_BOARDS_URL@
            && final(store)@ == old(store)@.with_boards(
            renamed_boards(old(store)@.boards, slug@, name@, description@),
        ),
{
    if !check_admin_auth(store, cookie_header) {
        return Err(Rejection::Unauthorized);
    }
    if name.is_empty() {
        return Err(Rejection::MissingName);
    }
    db::update_board(store, slug, name, description);
    Ok(String::from_str(ADMIN_BOARDS_URL))
}

/// The page number asked for: the one given (1 where none), at least 1.
pub open spec fn page_number_of(p: Pagination) -> i64 {
    match p.page {
        Some(n) => if n < 1 {
            1
        } else {
            n
        },
        None => 1,
    }
}

/// Decides `page_number_of(*p)`.
pub fn page_number(p: &Pagination) -> (r: i64)
    ensures
        r == page_number_of(*p),
        r >= 1,
{
    let n = match p.page {
        Some(n) => n,
        None => 1,
    };
    if n < 1 {
        1
    } else {
        n
    }
}

/// How many listing pages `total` posts take: `total` divided by 50, rounded up.
pub open spec fn page_count(total: int) -> int {
    if total % (POSTS_PER_PAGE as int) == 0 {
        total / (POSTS_PER_PAGE as int)
    } else {
        total / (POSTS_PER_PAGE as int) + 1
    }
}

/// Decides `page_count(total)`.
pub fn total_pages(total: i64) -> (r: i64)
    requires
        total >= 0,
    ensures
        r == page_count(total as int),
{
    if total % POSTS_PER_PAGE == 0 {
        total / POSTS_PER_PAGE
    } else {
        total / POSTS_PER_PAGE + 1
    }
}

/// What a page of the moderators' listing shows.
pub struct PostsPage {
    pub posts: Vec<PostWithBoard>,
    pub current_page: i64,
    pub total_pages: i64,
}

/// A page of the moderators' listing: 50 posts, newest first, from position
/// `(page - 1) * 50`, with the page number and the number of pages.
pub fn admin_posts(store: &Store, cookie_header: Option<&str>, pagination: &Pagination) -> (r: Result<PostsPage, Rejection>)
    requires
        store.wf(),
        is_moderator(store@.sessions, cookie_header) ==> (page_number_of(*pagination) - 1) * POSTS_PER_PAGE
            <= i64::MAX,
    ensures
        !is_moderator(store@.sessions, cookie_header) ==> r == Err::<PostsPage, Rejection>(Rejection::Unauthorized),
        is_moderator(store@.sessions, cookie_header) ==> r is Ok,
        match r {
            Ok(page) => {
                let offset = ((page_number_of(*pagination) - 1) * POSTS_PER_PAGE) as i64;
                &&& page.current_page == page_number_of(*pagination)
                &&& page.total_pages == page_count(store@.posts.len() as int)
                &&& page.posts@.len() == window_count(store@.posts.len(), POSTS_PER_PAGE, offset)
                &&& exists|full: Seq<PostV>|
                    is_top(store@.posts, any_post(), PostOrder::NewestFirst, listing_limit(POSTS_PER_PAGE, offset), full)
                        && listing_views(page.posts@) == from_position(full, offset as int)
            },
            Err(_) => true,
        },
{
    if !check_admin_auth(store, cookie_header) {
        return Err(Rejection::Unauthorized);
    }
    let page = page_number(pagination);
    let offset = (page - 1) * POSTS_PER_PAGE;
    let posts = db::get_all_posts(store, POSTS_PER_PAGE, offset);
    let total = db::get_post_count(store);
    Ok(PostsPage { posts, current_page: page, total_pages: total_pages(total) })
}

/// A moderator deletes the post `post_id` and every reply to it.
pub fn admin_delete_post(store: &mut Store, cookie_header: Option<&str>, post_id: i64) -> (r: Result<String, Rejection>)
    requires
        old(store).wf(),
    ensures
        final(store).wf(),
        !is_moderator(old(store)@.sessions, cookie_header) ==> r == Err::<String, Rejection>(Rejection::Unauthorized)
            && final(store)@ == old(store)@,
        is_moderator(old(store)@.sessions, cookie_header) && removal_keeps_references(old(store)@.posts, in_thread(post_id)) ==> r is Ok
            && r->Ok_0@ == ADMIN_POSTS_URL@ && final(store)@ == old(store)@.with_posts(
            keep_where(old(store)@.posts, not_picked(in_thread(post_id))),
        ),
        is_moderator(old(store)@.sessions, cookie_header) && !removal_keeps_references(old(store)@.posts, in_thread(post_id)) ==> r
            == Err::<String, Rejection>(Rejection::Storage(StoreError::ForeignKey)) && final(store)@ == old(store)@,
{
    if !check_admin_auth(store, cookie_header) {
        return Err(Rejection::Unauthorized);
    }
    match db::delete_post(store, post_id) {
        Ok(()) => Ok(String::from_str(ADMIN_POSTS_URL)),
        Err(e) => Err(Rejection::Storage(e)),
    }
}

/// A moderator locks the post `thread_id`.
pub fn admin_lock_thread(store: &mut Store, cookie_header: Option<&str>, thread_id: i64) -> (r: Result<String, Rejection>)
    requires
        old(store).wf(),
    ensures
        final(store).wf(),
        !is_moderator(old(store)@.sessions, cookie_header) ==> r == Err::<String, Rejection>(Rejection::Unauthorized)
            && final(store)@ == old(store)@,
        is_moderator(old(store)@.sessions, cookie_header) ==> r is Ok && r->Ok_0@ == ADMIN_POSTS_URL@ && final(store)@
            == old(store)@.with_posts(locked_posts(old(store)@.posts, thread_id)),
{
    if !check_admin_auth(store, cookie_header) {
        return Err(Rejection::Unauthorized);
    }
    db::lock_thread(store, thread_id);
    Ok(String::from_str(ADMIN_POSTS_URL))
}

/// A moderator moves the thread `thread_id` to the board the query names.
pub fn admin_move_thread(store: &mut Store, cookie_header: Option<&str>, thread_id: i64, query: &MoveQuery) -> (r: Result<String, Rejection>)
    requires
        old(store).wf(),
    ensures
        final(store).wf(),
        !is_moderator(old(store)@.sessions, cookie_header) ==> r == Err::<String, Rejection>(Rejection::Unauthorized)
            && final(store)@ == old(store)@,
        is_moderator(old(store)@.sessions, cookie_header) && has_opening_post(old(store)@.posts, thread_id) && has_slug(
            old(store)@.boards,
            query.target_board@,
        ) ==> r is Ok && r->Ok_0@ == ADMIN_POSTS_URL@ && final(store)@ == old(store)@.with_posts(
            moved_posts(old(store)@.posts, thread_id, query.target_board@),
        ),
        is_moderator(old(store)@.sessions, cookie_header) && has_opening_post(old(store)@.posts, thread_id) && !has_slug(
            old(store)@.boards,
            query.target_board@,
        ) ==> r == Err::<String, Rejection>(Rejection::Storage(StoreError::ForeignKey)) && final(store)@
            == old(store)@,
        is_moderator(old(store)@.sessions, cookie_header) && !has_opening_post(old(store)@.posts, thread_id) ==> r is Ok
            && r->Ok_0@ == ADMIN_POSTS_URL@ && final(store)@ == old(store)@,
{
    if !check_admin_auth(store, cookie_header) {
        return Err(Rejection::Unauthorized);
    }
    match db::move_thread(store, thread_id, query.target_board.as_str()) {
        Ok(()) => Ok(String::from_str(ADMIN_POSTS_URL)),
        Err(e) => Err(Rejection::Storage(e)),
    }
}

} // verus!
