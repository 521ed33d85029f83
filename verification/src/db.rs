use vstd::prelude::*;
use crate::models::{AdminStats, Board, BoardV, Post, PostV, PostWithBoard, Thread, Timestamp};
use crate::text::{
    chars_of, push_all, same_chars, text_less, text_lt, lemma_text_lt_irreflexive, lemma_text_lt_transitive,
    lemma_text_lt_total, same_text,
};

verus! {

/// Why the store refused a change.
#[derive(Clone, Copy, Debug, PartialEq, Eq, Structural)]
pub enum StoreError {
    /// A board with that slug exists already (slugs are unique).
    DuplicateSlug,
    /// No further id can be handed out: the largest id ever used is `i64::MAX`.
    Full,
    /// A post would name a board or a post that does not exist (posts name their board and the
    /// post they reply to, and these references are enforced).
    ForeignKey,
}

/// The site's data: its boards and its posts, with the largest board id and post id
/// handed out so far (ids are never reused), and the moderators' session tokens handed out.
pub struct Store {
    boards: Vec<Board>,
    posts: Vec<Post>,
    last_board_id: i64,
    last_post_id: i64,
    sessions: Vec<String>,
}

/// The value of a store.
pub struct StoreV {
    /// The boards, in ascending order of slug.
    pub boards: Seq<BoardV>,
    /// The posts, in ascending order of id (the order they were made in).
    pub posts: Seq<PostV>,
    pub last_board_id: i64,
    pub last_post_id: i64,
    /// The moderators' session tokens, in the order they were handed out.
    pub sessions: Seq<Seq<char>>,
}

/// The values of a list of boards.
pub open spec fn board_views(v: Seq<Board>) -> Seq<BoardV> {
    v.map_values(|b: Board| b@)
}

/// The texts of a list of session tokens.
pub open spec fn session_views(v: Seq<String>) -> Seq<Seq<char>> {
    v.map_values(|t: String| t@)
}

/// The values of a list of posts.
pub open spec fn post_views(v: Seq<Post>) -> Seq<PostV> {
    v.map_values(|p: Post| p@)
}

impl View for Store {
    type V = StoreV;

    closed spec fn view(&self) -> StoreV {
        StoreV {
            boards: board_views(self.boards@),
            posts: post_views(self.posts@),
            last_board_id: self.last_board_id,
            last_post_id: self.last_post_id,
            sessions: session_views(self.sessions@),
        }
    }
}

/// Boards in strictly ascending order of slug (so no slug occurs twice).
pub open spec fn slugs_ascending(boards: Seq<BoardV>) -> bool {
    forall|i: int, j: int| 0 <= i < j < boards.len() ==> text_lt(boards[i].slug, boards[j].slug)
}

/// Posts in strictly ascending order of id (so no id occurs twice).
pub open spec fn ids_ascending(posts: Seq<PostV>) -> bool {
    forall|i: int, j: int| 0 <= i < j < posts.len() ==> posts[i].id < posts[j].id
}

/// The number of boards whose slug sorts before `slug`: where a board with that slug goes.
pub open spec fn slug_rank(boards: Seq<BoardV>, slug: Seq<char>) -> nat
    decreases boards.len(),
{
    if boards.len() == 0 {
        0
    } else {
        slug_rank(boards.drop_last(), slug) + if text_lt(boards.last().slug, slug) {
            1nat
        } else {
            0nat
        }
    }
}

/// Some board has the slug `slug`.
pub open spec fn has_slug(boards: Seq<BoardV>, slug: Seq<char>) -> bool {
    exists|i: int| 0 <= i < boards.len() && boards[i].slug == slug
}

impl StoreV {
    /// What every store keeps: boards sorted by slug, posts sorted by id, and every id
    /// positive and no larger than the largest id handed out.
    pub open spec fn well_formed(self) -> bool {
        &&& 0 <= self.last_board_id
        &&& 0 <= self.last_post_id
        &&& self.boards.len() <= self.last_board_id
        &&& self.posts.len() <= self.last_post_id
        &&& slugs_ascending(self.boards)
        &&& ids_ascending(self.posts)
        &&& forall|i: int|
            0 <= i < self.boards.len() ==> 0 < #[trigger] self.boards[i].id <= self.last_board_id
        &&& forall|i: int|
            0 <= i < self.posts.len() ==> 0 < #[trigger] self.posts[i].id <= self.last_post_id
    }

    /// The store with its boards replaced by `boards`.
    pub open spec fn with_boards(self, boards: Seq<BoardV>) -> StoreV {
        StoreV { boards, ..self }
    }

    /// The store with the session token `token` handed out.
    pub open spec fn with_session(self, token: Seq<char>) -> StoreV {
        StoreV { sessions: self.sessions.push(token), ..self }
    }

    /// The store with its posts replaced by `posts`.
    pub open spec fn with_posts(self, posts: Seq<PostV>) -> StoreV {
        StoreV { posts, ..self }
    }

    /// The store after a new post with the next post id is made at `now`; where it replies
    /// to `thread_id`, the post with that id is bumped to `now` first.
    pub open spec fn with_new_post(
        self,
        board_slug: Seq<char>,
        thread_id: Option<i64>,
        author_id: Seq<char>,
        content: Seq<char>,
        image_path: Option<Seq<char>>,
        image_name: Option<Seq<char>>,
        now: Timestamp,
    ) -> StoreV {
        let id = (self.last_post_id + 1) as i64;
        let earlier = match thread_id {
            Some(t) => bumped_posts(self.posts, t, now),
            None => self.posts,
        };
        StoreV {
            posts: earlier.push(
                new_post_value(id, board_slug, thread_id, author_id, content, image_path, image_name, now),
            ),
            last_post_id: id,
            ..self
        }
    }

    /// The store with a new board (the next board id) put in its place by slug.
    pub open spec fn with_new_board(self, slug: Seq<char>, name: Seq<char>, description: Seq<char>) -> StoreV {
        StoreV {
            boards: self.boards.insert(
                slug_rank(self.boards, slug) as int,
                BoardV { id: (self.last_board_id + 1) as i64, slug, name, description },
            ),
            last_board_id: (self.last_board_id + 1) as i64,
            ..self
        }
    }
}

/// The elements of `s` for which `keep` holds, in their order.
pub open spec fn keep_where<A>(s: Seq<A>, keep: spec_fn(A) -> bool) -> Seq<A>
    decreases s.len(),
{
    if s.len() == 0 {
        Seq::empty()
    } else {
        let rest = keep_where(s.drop_last(), keep);
        if keep(s.last()) {
            rest.push(s.last())
        } else {
            rest
        }
    }
}

/// How many elements of `s` satisfy `keep`.
pub open spec fn count_where<A>(s: Seq<A>, keep: spec_fn(A) -> bool) -> nat
    decreases s.len(),
{
    if s.len() == 0 {
        0
    } else {
        count_where(s.drop_last(), keep) + if keep(s.last()) {
            1nat
        } else {
            0nat
        }
    }
}

/// The board with slug `slug`, if there is one.
pub open spec fn board_named(boards: Seq<BoardV>, slug: Seq<char>) -> Option<BoardV> {
    if has_slug(boards, slug) {
        Some(boards[choose|i: int| 0 <= i < boards.len() && boards[i].slug == slug])
    } else {
        None
    }
}

/// The value of an optional board.
pub open spec fn opt_board(o: Option<Board>) -> Option<BoardV> {
    match o {
        Some(b) => Some(b@),
        None => None,
    }
}

/// The boards with the one of slug `slug` (if any) given a new name and description.
pub open spec fn renamed_boards(boards: Seq<BoardV>, slug: Seq<char>, name: Seq<char>, description: Seq<char>) -> Seq<BoardV> {
    boards.map_values(
        |b: BoardV|
            if b.slug == slug {
                BoardV { name, description, ..b }
            } else {
                b
            },
    )
}

/// One step of seeding: where no error came before and an id is left, the board is added
/// unless its slug is taken; an exhausted id space is an error.
pub open spec fn seed_step(r: Result<StoreV, StoreV>, slug: Seq<char>, name: Seq<char>, description: Seq<char>) -> Result<StoreV, StoreV> {
    match r {
        Err(s) => Err(s),
        Ok(s) => if s.last_board_id == i64::MAX {
            Err(s)
        } else if has_slug(s.boards, slug) {
            Ok(s)
        } else {
            Ok(s.with_new_board(slug, name, description))
        },
    }
}

/// The slug, name and description of the boards a new site starts with.
pub const RANDOM_SLUG: &'static str = "b";
pub const RANDOM_NAME: &'static str = "Random";
pub const RANDOM_DESCRIPTION: &'static str = "The stories and information posted here are artistic works of fiction and falsehood.";
pub const TECHNOLOGY_SLUG: &'static str = "g";
pub const TECHNOLOGY_NAME: &'static str = "Technology";
pub const TECHNOLOGY_DESCRIPTION: &'static str = "Install Gentoo";
pub const VIDEO_GAMES_SLUG: &'static str = "v";
pub const VIDEO_GAMES_NAME: &'static str = "Video Games";
pub const VIDEO_GAMES_DESCRIPTION: &'static str = "vidya gaems";
pub const ANIME_SLUG: &'static str = "a";
pub const ANIME_NAME: &'static str = "Anime & Manga";
pub const ANIME_DESCRIPTION: &'static str = "Discuss Chinese cartoons";
pub const POLITICS_SLUG: &'static str = "pol";
pub const POLITICS_NAME: &'static str = "Politics";
pub const POLITICS_DESCRIPTION: &'static str = "Political discussion";

/// The store after the default boards are added in turn, each unless its slug is taken:
/// `Ok` with the result, or `Err` with the boards added before ids ran out.
pub open spec fn seeded(s: StoreV) -> Result<StoreV, StoreV> {
    let r0 = Ok(s);
    let r1 = seed_step(r0, RANDOM_SLUG@, RANDOM_NAME@, RANDOM_DESCRIPTION@);
    let r2 = seed_step(r1, TECHNOLOGY_SLUG@, TECHNOLOGY_NAME@, TECHNOLOGY_DESCRIPTION@);
    let r3 = seed_step(r2, VIDEO_GAMES_SLUG@, VIDEO_GAMES_NAME@, VIDEO_GAMES_DESCRIPTION@);
    let r4 = seed_step(r3, ANIME_SLUG@, ANIME_NAME@, ANIME_DESCRIPTION@);
    seed_step(r4, POLITICS_SLUG@, POLITICS_NAME@, POLITICS_DESCRIPTION@)
}

/// The state a seeding result stands for.
pub open spec fn outcome_state(r: Result<StoreV, StoreV>) -> StoreV {
    match r {
        Ok(s) => s,
        Err(s) => s,
    }
}

/// Posts on the board `slug`.
pub open spec fn on_board(slug: Seq<char>) -> spec_fn(PostV) -> bool {
    |p: PostV| p.board_slug == slug
}

/// Opening posts (threads) on the board `slug`.
pub open spec fn opening_posts_on(slug: Seq<char>) -> spec_fn(PostV) -> bool {
    |p: PostV| p.thread_id is None && p.board_slug == slug
}

/// Replies to the post `id`.
pub open spec fn replies_to(id: i64) -> spec_fn(PostV) -> bool {
    |p: PostV| p.thread_id == Some(id)
}

/// The post `id` and the replies to it.
pub open spec fn in_thread(id: i64) -> spec_fn(PostV) -> bool {
    |p: PostV| p.id == id || p.thread_id == Some(id)
}

/// Every post.
pub open spec fn any_post() -> spec_fn(PostV) -> bool {
    |p: PostV| true
}

/// Opening posts, on any board.
pub open spec fn opening_post() -> spec_fn(PostV) -> bool {
    |p: PostV| p.thread_id is None
}

/// Posts that `f` does not pick.
pub open spec fn not_picked(f: spec_fn(PostV) -> bool) -> spec_fn(PostV) -> bool {
    |p: PostV| !f(p)
}

/// Boards whose slug is not `slug`.
pub open spec fn slug_is_not(slug: Seq<char>) -> spec_fn(BoardV) -> bool {
    |b: BoardV| b.slug != slug
}

/// The text put before the content of a locked post.
pub open spec fn locked_prefix() -> Seq<char> {
    seq!['[', 'L', 'O', 'C', 'K', 'E', 'D', ']', ' ']
}

/// The posts with the one of id `id` (if any) locked: `[LOCKED] ` put before its content.
pub open spec fn locked_posts(posts: Seq<PostV>, id: i64) -> Seq<PostV> {
    posts.map_values(
        |p: PostV|
            if p.id == id {
                PostV { content: locked_prefix() + p.content, ..p }
            } else {
                p
            },
    )
}

/// The posts with the post `id` and its replies put on the board `slug`.
pub open spec fn moved_posts(posts: Seq<PostV>, id: i64, slug: Seq<char>) -> Seq<PostV> {
    posts.map_values(
        |p: PostV|
            if p.id == id || p.thread_id == Some(id) {
                PostV { board_slug: slug, ..p }
            } else {
                p
            },
    )
}

/// The posts with the post `id` (if any) bumped to `now`.
pub open spec fn bumped_posts(posts: Seq<PostV>, id: i64, now: Timestamp) -> Seq<PostV> {
    posts.map_values(
        |p: PostV|
            if p.id == id {
                PostV { bump_time: now, ..p }
            } else {
                p
            },
    )
}

/// Some post is the opening post `id`.
pub open spec fn has_opening_post(posts: Seq<PostV>, id: i64) -> bool {
    exists|i: int| 0 <= i < posts.len() && posts[i].id == id && posts[i].thread_id is None
}

/// The post a new post becomes.
pub open spec fn new_post_value(
    id: i64,
    board_slug: Seq<char>,
    thread_id: Option<i64>,
    author_id: Seq<char>,
    content: Seq<char>,
    image_path: Option<Seq<char>>,
    image_name: Option<Seq<char>>,
    now: Timestamp,
) -> PostV {
    PostV {
        id,
        board_slug,
        thread_id,
        author_id,
        content,
        image_path,
        image_name,
        created_at: now,
        bump_time: now,
    }
}

/// Which posts a scan picks.
pub enum PostMatch {
    OnBoard(Vec<char>),
    OpeningPostsOn(Vec<char>),
    RepliesTo(i64),
    InThread(i64),
    Opening,
    Any,
}

impl PostMatch {
    /// The posts this match picks.
    pub open spec fn picks(&self) -> spec_fn(PostV) -> bool {
        match self {
            PostMatch::OnBoard(v) => on_board(v@),
            PostMatch::OpeningPostsOn(v) => opening_posts_on(v@),
            PostMatch::RepliesTo(id) => replies_to(*id),
            PostMatch::InThread(id) => in_thread(*id),
            PostMatch::Opening => opening_post(),
            PostMatch::Any => any_post(),
        }
    }

    /// Whether this match picks `p`.
    pub fn test(&self, p: &Post) -> (r: bool)
        ensures
            r == (self.picks())(p@),
    {
        match self {
            PostMatch::OnBoard(v) => {
                let b = chars_of(p.board_slug.as_str());
                same_chars(&b, v)
            },
            PostMatch::OpeningPostsOn(v) => {
                if p.thread_id.is_some() {
                    false
                } else {
                    let b = chars_of(p.board_slug.as_str());
                    same_chars(&b, v)
                }
            },
            PostMatch::RepliesTo(id) => match p.thread_id {
                Some(t) => t == *id,
                None => false,
            },
            PostMatch::InThread(id) => p.id == *id || match p.thread_id {
                Some(t) => t == *id,
                None => false,
            },
            PostMatch::Opening => p.thread_id.is_none(),
            PostMatch::Any => true,
        }
    }
}

/// `count_where` never exceeds the length.
pub proof fn lemma_count_le_len<A>(s: Seq<A>, f: spec_fn(A) -> bool)
    ensures
        count_where(s, f) <= s.len(),
    decreases s.len(),
{
    if s.len() > 0 {
        lemma_count_le_len(s.drop_last(), f);
    }
}

/// Where `f` implies `g`, `f` counts no more than `g`; one element that `g` picks and `f`
/// does not makes the count of `f` smaller.
pub proof fn lemma_count_monotone<A>(s: Seq<A>, f: spec_fn(A) -> bool, g: spec_fn(A) -> bool, w: int)
    requires
        forall|x: A| #[trigger] f(x) ==> g(x),
    ensures
        count_where(s, f) <= count_where(s, g),
        0 <= w < s.len() && g(s[w]) && !f(s[w]) ==> count_where(s, f) < count_where(s, g),
    decreases s.len(),
{
    if s.len() > 0 {
        if w == s.len() - 1 {
            lemma_count_monotone(s.drop_last(), f, g, -1);
        } else {
            lemma_count_monotone(s.drop_last(), f, g, w);
        }
    }
}

/// Some post has the id `id`.
pub open spec fn has_post(posts: Seq<PostV>, id: i64) -> bool {
    exists|i: int| 0 <= i < posts.len() && posts[i].id == id
}

/// Removing the posts that `removed` picks leaves no post replying to a removed one.
pub open spec fn removal_keeps_references(posts: Seq<PostV>, removed: spec_fn(PostV) -> bool) -> bool {
    forall|i: int, j: int|
        0 <= i < posts.len() && 0 <= j < posts.len() && !removed(#[trigger] posts[i]) && removed(#[trigger] posts[j])
            ==> posts[i].thread_id != Some(posts[j].id)
}

/// A new post's references hold: its board exists, and the post it replies to (if any)
/// exists or is the new post itself.
pub open spec fn new_post_references_hold(s: StoreV, board_slug: Seq<char>, thread_id: Option<i64>) -> bool {
    &&& has_slug(s.boards, board_slug)
    &&& match thread_id {
        Some(t) => has_post(s.posts, t) || t == s.last_post_id + 1,
        None => true,
    }
}

proof fn lemma_slug_rank_split(boards: Seq<BoardV>, slug: Seq<char>, p: int)
    requires
        0 <= p <= boards.len(),
        forall|i: int| 0 <= i < p ==> text_lt(#[trigger] boards[i].slug, slug),
        forall|i: int| p <= i < boards.len() ==> !text_lt(#[trigger] boards[i].slug, slug),
    ensures
        slug_rank(boards, slug) == p,
    decreases boards.len(),
{
    if boards.len() > 0 {
        let rest = boards.drop_last();
        if p == boards.len() {
            lemma_slug_rank_split(rest, slug, p - 1);
        } else {
            lemma_slug_rank_split(rest, slug, p);
        }
    }
}

impl Store {
    /// The invariant of the store's value.
    pub open spec fn wf(&self) -> bool {
        self@.well_formed()
    }

    /// An empty store: no boards, no posts, no id and no session handed out yet.
    pub fn new() -> (s: Store)
        ensures
            s.wf(),
            s@.boards.len() == 0,
            s@.posts.len() == 0,
            s@.last_board_id == 0,
            s@.last_post_id == 0,
            s@.sessions.len() == 0,
    {
        let s = Store { boards: Vec::new(), posts: Vec::new(), last_board_id: 0, last_post_id: 0, sessions: Vec::new() };
        assert(s@.boards =~= Seq::<BoardV>::empty());
        assert(s@.posts =~= Seq::<PostV>::empty());
        assert(s@.sessions =~= Seq::<Seq<char>>::empty());
        s
    }

    /// Hands out the session token `token`: it is kept with the others.
    pub fn add_session(&mut self, token: &str)
        requires
            old(self).wf(),
        ensures
            final(self).wf(),
            final(self)@ == old(self)@.with_session(token@),
    {
        let ghost before = self.sessions@;
        self.sessions.push(String::from_str(token));
        assert(session_views(self.sessions@) =~= session_views(before).push(token@));
    }

    /// Whether `token` is a session token that was handed out.
    pub fn has_session(&self, token: &str) -> (r: bool)
        ensures
            r == self@.sessions.contains(token@),
    {
        let ghost ts = self@.sessions;
        let t = chars_of(token);
        for i in 0..self.sessions.len()
            invariant
                ts == session_views(self.sessions@),
                t@ == token@,
                forall|k: int| 0 <= k < i ==> ts[k] != token@,
        {
            let here = chars_of(self.sessions[i].as_str());
            assert(here@ == ts[i as int]);
            if same_chars(&here, &t) {
                assert(ts[i as int] == token@);
                return true;
            }
        }
        false
    }

    /// The session token handed out last, if any was.
    pub fn newest_session(&self) -> (r: Option<String>)
        ensures
            self@.sessions.len() == 0 ==> r is None,
            self@.sessions.len() > 0 ==> r is Some && r->0@ == self@.sessions.last(),
    {
        if self.sessions.len() == 0 {
            None
        } else {
            let t = self.sessions[self.sessions.len() - 1].clone();
            Some(t)
        }
    }

    /// Where a board with slug `slug` goes: the first board whose slug does not sort before it.
    fn board_position(&self, slug: &Vec<char>) -> (p: usize)
        requires
            self.wf(),
        ensures
            p <= self@.boards.len(),
            p == slug_rank(self@.boards, slug@),
            forall|i: int| 0 <= i < p ==> text_lt(#[trigger] self@.boards[i].slug, slug@),
            forall|i: int|
                p <= i < self@.boards.len() ==> !text_lt(#[trigger] self@.boards[i].slug, slug@),
            has_slug(self@.boards, slug@) <==> (p < self@.boards.len() && self@.boards[p as int].slug == slug@),
    {
        let ghost bs = self@.boards;
        let mut p: usize = 0;
        while p < self.boards.len()
            invariant
                self.wf(),
                bs == self@.boards,
                p <= bs.len(),
                forall|i: int| 0 <= i < p ==> text_lt(#[trigger] bs[i].slug, slug@),
            ensures
                p <= bs.len(),
                forall|i: int| 0 <= i < p ==> text_lt(#[trigger] bs[i].slug, slug@),
                p == bs.len() || !text_lt(bs[p as int].slug, slug@),
            decreases self.boards.len() - p,
        {
            let here = chars_of(self.boards[p].slug.as_str());
            assert(bs[p as int].slug == here@);
            if !text_less(&here, slug) {
                break;
            }
            p = p + 1;
        }
        proof {
            assert forall|i: int| p <= i < bs.len() implies !text_lt(#[trigger] bs[i].slug, slug@) by {
                if i > p && text_lt(bs[i].slug, slug@) {
                    lemma_text_lt_transitive(bs[p as int].slug, bs[i].slug, slug@);
                }
            }
            lemma_slug_rank_split(bs, slug@, p as int);
            if has_slug(bs, slug@) {
                let j = choose|j: int| 0 <= j < bs.len() && bs[j].slug == slug@;
                if j < p {
                    lemma_text_lt_irreflexive(slug@);
                } else if j > p {
                    assert(text_lt(bs[p as int].slug, bs[j].slug));
                }
            }
        }
        p
    }

    /// Puts a new board with the next id at position `p`.
    fn insert_board_at(&mut self, p: usize, slug: &str, name: &str, description: &str)
        requires
            old(self).wf(),
            old(self)@.last_board_id < i64::MAX,
            p == slug_rank(old(self)@.boards, slug@),
            !has_slug(old(self)@.boards, slug@),
        ensures
            final(self).wf(),
            final(self)@ == old(self)@.with_new_board(slug@, name@, description@),
    {
        let ghost bs = self@.boards;
        let slug_chars = chars_of(slug);
        let q = self.board_position(&slug_chars);
        assert(q == p);
        let id = self.last_board_id + 1;
        let b = Board {
            id,
            slug: String::from_str(slug),
            name: String::from_str(name),
            description: String::from_str(description),
        };
        self.boards.insert(p, b);
        self.last_board_id = id;
        proof {
            let nb = BoardV { id, slug: slug@, name: name@, description: description@ };
            assert(self@.boards =~= bs.insert(p as int, nb));
            assert forall|i: int| p <= i < bs.len() implies text_lt(slug@, #[trigger] bs[i].slug) by {
                lemma_text_lt_total(slug@, bs[i].slug);
            }
            let nbs = self@.boards;
            assert forall|i: int, j: int| 0 <= i < j < nbs.len() implies text_lt(nbs[i].slug, nbs[j].slug) by {
                if j < p {
                } else if j == p {
                } else if i < p {
                    lemma_text_lt_transitive(nbs[i].slug, slug@, nbs[j].slug);
                } else if i == p {
                } else {
                }
            }
        }
    }
}

impl Store {
    /// Adds a board unless its slug is taken (`Ok(false)`); an error only where ids have run out.
    pub fn insert_board_or_ignore(&mut self, slug: &str, name: &str, description: &str) -> (r: Result<bool, StoreError>)
        requires
            old(self).wf(),
        ensures
            final(self).wf(),
            seed_step(Ok(old(self)@), slug@, name@, description@) == match r {
                Ok(_) => Ok::<StoreV, StoreV>(final(self)@),
                Err(_) => Err::<StoreV, StoreV>(final(self)@),
            },
            r is Err ==> r == Err::<bool, StoreError>(StoreError::Full),
            r == Ok::<bool, StoreError>(true) <==> (old(self)@.last_board_id < i64::MAX && !has_slug(old(self)@.boards, slug@)),
    {
        match create_board(self, slug, name, description) {
            Ok(()) => Ok(true),
            Err(StoreError::DuplicateSlug) => Ok(false),
            Err(e) => Err(e),
        }
    }




}

/// Adds a board with the next id, unless ids have run out or the slug is taken.
pub fn create_board(store: &mut Store, slug: &str, name: &str, description: &str) -> (r: Result<(), StoreError>)
    requires
        old(store).wf(),
    ensures
        final(store).wf(),
        old(store)@.last_board_id == i64::MAX ==> r == Err::<(), StoreError>(StoreError::Full)
            && final(store)@ == old(store)@,
        old(store)@.last_board_id < i64::MAX && has_slug(old(store)@.boards, slug@) ==> r == Err::<
            (),
            StoreError,
        >(StoreError::DuplicateSlug) && final(store)@ == old(store)@,
        old(store)@.last_board_id < i64::MAX && !has_slug(old(store)@.boards, slug@) ==> r == Ok::<
            (),
            StoreError,
        >(()) && final(store)@ == old(store)@.with_new_board(slug@, name@, description@),
{
    if store.last_board_id == i64::MAX {
        return Err(StoreError::Full);
    }
    let slug_chars = chars_of(slug);
    let p = store.board_position(&slug_chars);
    if p < store.boards.len() && same_text(store.boards[p].slug.as_str(), slug) {
        return Err(StoreError::DuplicateSlug);
    }
    store.insert_board_at(p, slug, name, description);
    Ok(())
}

/// Adds the default boards (`b`, `g`, `v`, `a`, `pol`), each unless its slug is taken.
pub fn init_db(store: &mut Store) -> (r: Result<(), StoreError>)
    requires
        old(store).wf(),
    ensures
        final(store).wf(),
        final(store)@ == outcome_state(seeded(old(store)@)),
        r is Ok <==> seeded(old(store)@) is Ok,
        r is Err ==> r == Err::<(), StoreError>(StoreError::Full),
{
    let ghost s0 = store@;
    let ghost r1 = seed_step(Ok(s0), RANDOM_SLUG@, RANDOM_NAME@, RANDOM_DESCRIPTION@);
    let ghost r2 = seed_step(r1, TECHNOLOGY_SLUG@, TECHNOLOGY_NAME@, TECHNOLOGY_DESCRIPTION@);
    let ghost r3 = seed_step(r2, VIDEO_GAMES_SLUG@, VIDEO_GAMES_NAME@, VIDEO_GAMES_DESCRIPTION@);
    let ghost r4 = seed_step(r3, ANIME_SLUG@, ANIME_NAME@, ANIME_DESCRIPTION@);
    if store.insert_board_or_ignore(RANDOM_SLUG, RANDOM_NAME, RANDOM_DESCRIPTION).is_err() {
        return Err(StoreError::Full);
    }
    assert(r1 == Ok::<StoreV, StoreV>(store@));
    if store.insert_board_or_ignore(TECHNOLOGY_SLUG, TECHNOLOGY_NAME, TECHNOLOGY_DESCRIPTION).is_err() {
        return Err(StoreError::Full);
    }
    assert(r2 == Ok::<StoreV, StoreV>(store@));
    if store.insert_board_or_ignore(VIDEO_GAMES_SLUG, VIDEO_GAMES_NAME, VIDEO_GAMES_DESCRIPTION).is_err() {
        return Err(StoreError::Full);
    }
    assert(r3 == Ok::<StoreV, StoreV>(store@));
    if store.insert_board_or_ignore(ANIME_SLUG, ANIME_NAME, ANIME_DESCRIPTION).is_err() {
        return Err(StoreError::Full);
    }
    assert(r4 == Ok::<StoreV, StoreV>(store@));
    if store.insert_board_or_ignore(POLITICS_SLUG, POLITICS_NAME, POLITICS_DESCRIPTION).is_err() {
        return Err(StoreError::Full);
    }
    Ok(())
}

/// All boards, in ascending order of slug.
pub fn get_boards(store: &Store) -> (r: Vec<Board>)
    requires
        store.wf(),
    ensures
        board_views(r@) == store@.boards,
        slugs_ascending(board_views(r@)),
{
    let mut out: Vec<Board> = Vec::new();
    for i in 0..store.boards.len()
        invariant
            board_views(out@) == board_views(store.boards@).take(i as int),
    {
        let b = store.boards[i].clone();
        assert(b@ == board_views(store.boards@)[i as int]);
        let ghost before = out@;
        out.push(b);
        assert(board_views(out@) =~= board_views(before).push(b@));
        assert(board_views(out@) =~= board_views(store.boards@).take(i + 1));
    }
    assert(board_views(store.boards@).take(store.boards.len() as int) =~= board_views(store.boards@));
    out
}

/// The board with slug `slug`, if there is one.
pub fn get_board(store: &Store, slug: &str) -> (r: Option<Board>)
    requires
        store.wf(),
    ensures
        opt_board(r) == board_named(store@.boards, slug@),
{
    let slug_chars = chars_of(slug);
    let p = store.board_position(&slug_chars);
    if p < store.boards.len() && same_text(store.boards[p].slug.as_str(), slug) {
        proof {
            let bs = store@.boards;
            let j = choose|j: int| 0 <= j < bs.len() && bs[j].slug == slug@;
            if j < p {
                assert(text_lt(bs[j].slug, bs[p as int].slug));
                lemma_text_lt_irreflexive(slug@);
            } else if j > p {
                assert(text_lt(bs[p as int].slug, bs[j].slug));
                lemma_text_lt_irreflexive(slug@);
            }
        }
        Some(store.boards[p].clone())
    } else {
        None
    }
}

/// Gives the board with slug `slug` (if any) a new name and description.
pub fn update_board(store: &mut Store, slug: &str, name: &str, description: &str)
    requires
        old(store).wf(),
    ensures
        final(store).wf(),
        final(store)@ == old(store)@.with_boards(renamed_boards(old(store)@.boards, slug@, name@, description@)),
{
    let ghost bs = store@.boards;
    let slug_chars = chars_of(slug);
    let p = store.board_position(&slug_chars);
    if p < store.boards.len() && same_text(store.boards[p].slug.as_str(), slug) {
        let old_board = store.boards[p].clone();
        let nb = Board {
            id: old_board.id,
            slug: old_board.slug,
            name: String::from_str(name),
            description: String::from_str(description),
        };
        store.boards.set(p, nb);
        proof {
            assert forall|j: int| 0 <= j < bs.len() && j != p implies bs[j].slug != slug@ by {
                if j < p {
                    assert(text_lt(bs[j].slug, bs[p as int].slug));
                    lemma_text_lt_irreflexive(slug@);
                } else {
                    assert(text_lt(bs[p as int].slug, bs[j].slug));
                    lemma_text_lt_irreflexive(slug@);
                }
            }
            assert(store@.boards =~= renamed_boards(bs, slug@, name@, description@));
        }
    } else {
        proof {
            assert(store@.boards =~= renamed_boards(bs, slug@, name@, description@));
        }
    }
}

/// An order in which posts are listed; ties between equal times go by ascending id.
#[derive(Clone, Copy, Debug, PartialEq, Eq, Structural)]
pub enum PostOrder {
    /// Most recently bumped first.
    BumpedFirst,
    /// Most recently made first.
    NewestFirst,
    /// Earliest made first.
    OldestFirst,
}

/// `a` is listed before `b` in `order`.
pub open spec fn precedes(order: PostOrder, a: PostV, b: PostV) -> bool {
    match order {
        PostOrder::BumpedFirst => b.bump_time.earlier(a.bump_time) || (a.bump_time == b.bump_time
            && a.id < b.id),
        PostOrder::NewestFirst => b.created_at.earlier(a.created_at) || (a.created_at
            == b.created_at && a.id < b.id),
        PostOrder::OldestFirst => a.created_at.earlier(b.created_at) || (a.created_at
            == b.created_at && a.id < b.id),
    }
}

/// Decides `precedes(order, a@, b@)`.
pub fn listed_before(order: PostOrder, a: &Post, b: &Post) -> (r: bool)
    ensures
        r == precedes(order, a@, b@),
{
    match order {
        PostOrder::BumpedFirst => b.bump_time.is_earlier(&a.bump_time) || (a.bump_time
            == b.bump_time && a.id < b.id),
        PostOrder::NewestFirst => b.created_at.is_earlier(&a.created_at) || (a.created_at
            == b.created_at && a.id < b.id),
        PostOrder::OldestFirst => a.created_at.is_earlier(&b.created_at) || (a.created_at
            == b.created_at && a.id < b.id),
    }
}

/// A limit as a number, where there is one.
pub open spec fn limit_of(limit: Option<usize>) -> Option<nat> {
    match limit {
        Some(k) => Some(k as nat),
        None => None,
    }
}

/// `r` is the listing of the posts that `pick` picks, in `order`, cut after `limit` posts:
/// picked posts, strictly in order, every picked post listed before a listed one is listed
/// too, and where fewer than `limit` are listed (or there is no limit), every picked post is.
pub open spec fn is_top(posts: Seq<PostV>, pick: spec_fn(PostV) -> bool, order: PostOrder, limit: Option<nat>, r: Seq<PostV>) -> bool {
    &&& match limit {
        Some(k) => r.len() <= k,
        None => true,
    }
    &&& forall|i: int| 0 <= i < r.len() ==> posts.contains(#[trigger] r[i]) && pick(r[i])
    &&& forall|i: int, j: int| 0 <= i < j < r.len() ==> precedes(order, #[trigger] r[i], #[trigger] r[j])
    &&& forall|j: int, i: int|
        0 <= j < posts.len() && pick(#[trigger] posts[j]) && 0 <= i < r.len() && precedes(
            order,
            posts[j],
            #[trigger] r[i],
        ) ==> r.contains(posts[j])
    &&& (match limit {
        Some(k) => r.len() < k,
        None => true,
    }) ==> forall|j: int| 0 <= j < posts.len() && pick(#[trigger] posts[j]) ==> r.contains(posts[j])
}

/// How many posts a listing holds when `picked` posts qualify: all of them, or `limit` where
/// that is fewer.
pub open spec fn listed_count(picked: nat, limit: Option<nat>) -> nat {
    match limit {
        Some(k) => if k < picked {
            k
        } else {
            picked
        },
        None => picked,
    }
}

/// Where `f` holds of every element of `s`, it counts them all.
pub proof fn lemma_count_all<A>(s: Seq<A>, f: spec_fn(A) -> bool)
    requires
        forall|i: int| 0 <= i < s.len() ==> #[trigger] f(s[i]),
    ensures
        count_where(s, f) == s.len(),
    decreases s.len(),
{
    if s.len() > 0 {
        let d = s.drop_last();
        assert forall|i: int| 0 <= i < d.len() implies #[trigger] f(d[i]) by {
            assert(d[i] == s[i]);
        }
        lemma_count_all(d, f);
        assert(f(s[s.len() - 1]));
    }
}

/// Where, on the elements of `s`, `f` holds exactly where `g` or `h` does, and never both,
/// `f` counts what `g` and `h` count together.
pub proof fn lemma_count_split<A>(s: Seq<A>, f: spec_fn(A) -> bool, g: spec_fn(A) -> bool, h: spec_fn(A) -> bool)
    requires
        forall|i: int| 0 <= i < s.len() ==> #[trigger] f(s[i]) == (g(s[i]) || h(s[i])),
        forall|i: int| 0 <= i < s.len() ==> !(#[trigger] g(s[i]) && h(s[i])),
    ensures
        count_where(s, f) == count_where(s, g) + count_where(s, h),
    decreases s.len(),
{
    if s.len() > 0 {
        let d = s.drop_last();
        assert forall|i: int| 0 <= i < d.len() implies #[trigger] f(d[i]) == (g(d[i]) || h(d[i])) by {
            assert(d[i] == s[i]);
        }
        assert forall|i: int| 0 <= i < d.len() implies !(#[trigger] g(d[i]) && h(d[i])) by {
            assert(d[i] == s[i]);
        }
        lemma_count_split(d, f, g, h);
        assert(s.last() == s[s.len() - 1]);
    }
}

/// Nothing is counted where nothing qualifies.
pub proof fn lemma_count_none<A>(s: Seq<A>, f: spec_fn(A) -> bool)
    requires
        forall|i: int| 0 <= i < s.len() ==> !f(#[trigger] s[i]),
    ensures
        count_where(s, f) == 0,
    decreases s.len(),
{
    if s.len() > 0 {
        let d = s.drop_last();
        assert forall|i: int| 0 <= i < d.len() implies !f(#[trigger] d[i]) by {
            assert(d[i] == s[i]);
        }
        lemma_count_none(d, f);
        assert(!f(s[s.len() - 1]));
    }
}

/// Posts with ascending ids hold each post once.
pub proof fn lemma_count_single(posts: Seq<PostV>, b: int)
    requires
        ids_ascending(posts),
        0 <= b < posts.len(),
    ensures
        count_where(posts, |x: PostV| x == posts[b]) == 1,
    decreases posts.len(),
{
    let same = |x: PostV| x == posts[b];
    let d = posts.drop_last();
    assert(ids_ascending(d));
    if b == posts.len() - 1 {
        assert forall|i: int| 0 <= i < d.len() implies !same(#[trigger] d[i]) by {
            assert(d[i].id < posts[b].id);
        }
        lemma_count_none(d, same);
    } else {
        lemma_count_single(d, b);
        assert(d[b] == posts[b]);
        assert((|x: PostV| x == d[b]) =~= same);
        assert(posts.last().id > posts[b].id);
    }
}

/// Posts that `pick` picks and that come after the last of `listed` in `order`.
pub open spec fn still_to_list(pick: spec_fn(PostV) -> bool, order: PostOrder, listed: Seq<PostV>) -> spec_fn(PostV) -> bool {
    |p: PostV| pick(p) && (listed.len() == 0 || precedes(order, listed.last(), p))
}

/// The text of an optional string slice.
pub open spec fn opt_text_of(o: Option<&str>) -> Option<Seq<char>> {
    match o {
        Some(s) => Some(s@),
        None => None,
    }
}

/// The opening posts of a list of threads.
pub open spec fn thread_ops(ts: Seq<Thread>) -> Seq<PostV> {
    ts.map_values(|t: Thread| t.op@)
}

/// The values of a moderator's listing.
pub open spec fn listing_views(v: Seq<PostWithBoard>) -> Seq<PostV> {
    v.map_values(|p: PostWithBoard| p@)
}

/// How many threads a board page shows.
pub const THREADS_PER_BOARD_PAGE: usize = 10;

/// How many replies a board page shows under each thread.
pub const REPLIES_PER_PREVIEW: usize = 3;

/// The most posts a moderator's listing may reach: `offset` (0 where negative) plus `limit`;
/// no bound where `limit` is negative.
pub open spec fn listing_limit(limit: i64, offset: i64) -> Option<nat> {
    if limit < 0 {
        None
    } else {
        Some((if offset < 0 { 0 } else { offset as int } + limit) as nat)
    }
}

/// How many of `total` posts a listing shows: those from position `offset` on (from the
/// first where it is negative), at most `limit` of them unless `limit` is negative.
pub open spec fn window_count(total: nat, limit: i64, offset: i64) -> nat {
    let skip: int = if offset < 0 { 0 } else { offset as int };
    let avail: int = if total > skip { total - skip } else { 0 };
    if limit < 0 {
        avail as nat
    } else if limit < avail {
        limit as nat
    } else {
        avail as nat
    }
}

/// The part of `full` from position `skip` on (empty where `full` is shorter).
pub open spec fn from_position(full: Seq<PostV>, skip: int) -> Seq<PostV> {
    if skip < full.len() {
        full.skip(skip)
    } else {
        Seq::empty()
    }
}

/// The time now, as the system clock gives it.
/// Trusted: calls `chrono::Utc::now` and converts the date-time to its seconds since the
/// epoch and the nanoseconds within the second. Nothing is promised of the result.
#[verifier::external_body]
fn current_time() -> (t: Timestamp) {
    let now = chrono::Utc::now();
    Timestamp { secs: now.timestamp(), nanos: now.timestamp_subsec_nanos() }
}

impl Store {
    /// The posts that `m` picks, listed in `order`, at most `limit` of them.
    #[verifier::rlimit(50)]
    fn select_posts(&self, m: &PostMatch, order: PostOrder, limit: Option<usize>) -> (r: Vec<Post>)
        requires
            self.wf(),
        ensures
            is_top(self@.posts, m.picks(), order, limit_of(limit), post_views(r@)),
            r@.len() == listed_count(count_where(self@.posts, m.picks()), limit_of(limit)),
    {
        let ghost ps = self@.posts;
        let ghost pick = m.picks();
        let mut r: Vec<Post> = Vec::new();
        proof {
            let c0 = still_to_list(pick, order, post_views(r@));
            lemma_count_monotone(ps, c0, pick, -1);
            lemma_count_monotone(ps, pick, c0, -1);
        }
        loop
            invariant
                self.wf(),
                ps == self@.posts,
                pick == m.picks(),
                match limit {
                    Some(k) => r@.len() <= k,
                    None => true,
                },
                forall|i: int| 0 <= i < r@.len() ==> ps.contains(#[trigger] post_views(r@)[i]) && pick(post_views(r@)[i]),
                forall|i: int, j: int| 0 <= i < j < r@.len() ==> precedes(order, #[trigger] post_views(r@)[i], #[trigger] post_views(r@)[j]),
                forall|j: int, i: int|
                    0 <= j < ps.len() && pick(#[trigger] ps[j]) && 0 <= i < r@.len() && precedes(order, ps[j], #[trigger] post_views(r@)[i])
                        ==> post_views(r@).contains(ps[j]),
                forall|j: int|
                    0 <= j < ps.len() && pick(#[trigger] ps[j]) && !post_views(r@).contains(ps[j])
                        ==> (still_to_list(pick, order, post_views(r@)))(ps[j]),
                r@.len() + count_where(ps, still_to_list(pick, order, post_views(r@))) == count_where(ps, pick),
            ensures
                is_top(ps, pick, order, limit_of(limit), post_views(r@)),
                r@.len() == listed_count(count_where(ps, pick), limit_of(limit)),
            decreases count_where(ps, still_to_list(pick, order, post_views(r@))),
        {
            let ghost rv = post_views(r@);
            let ghost cand = still_to_list(pick, order, rv);
            if let Some(k) = limit {
                if r.len() >= k {
                    break;
                }
            }
            let mut best: Option<usize> = None;
            for j in 0..self.posts.len()
                invariant
                    self.wf(),
                    ps == self@.posts,
                    rv == post_views(r@),
                    cand == still_to_list(pick, order, rv),
                    pick == m.picks(),
                    match best {
                        Some(b) => b < j && cand(ps[b as int]) && forall|t: int|
                            0 <= t < j && #[trigger] cand(ps[t]) ==> t == b || precedes(order, ps[b as int], ps[t]),
                        None => forall|t: int| 0 <= t < j ==> !#[trigger] cand(ps[t]),
                    },
            {
                assert(ps[j as int] == self.posts@[j as int]@);
                let is_cand = m.test(&self.posts[j]) && (r.len() == 0 || listed_before(order, &r[r.len() - 1], &self.posts[j]));
                proof {
                    if r@.len() > 0 {
                        assert(rv.last() == r@[r@.len() - 1]@);
                    }
                }
                assert(is_cand == cand(ps[j as int]));
                if is_cand {
                    match best {
                        None => {
                            best = Some(j);
                        },
                        Some(b) => {
                            assert(ps[b as int] == self.posts@[b as int]@);
                            if listed_before(order, &self.posts[j], &self.posts[b]) {
                                best = Some(j);
                            } else {
                                assert(ps[b as int].id < ps[j as int].id);
                            }
                        },
                    }
                }
            }
            match best {
                None => {
                    assert forall|j: int| 0 <= j < ps.len() && pick(#[trigger] ps[j]) implies rv.contains(ps[j]) by {
                        if !rv.contains(ps[j]) {
                            assert(cand(ps[j]));
                        }
                    }
                    proof {
                        lemma_count_none(ps, cand);
                    }
                    break;
                },
                Some(b) => {
                    let p = self.posts[b].clone();
                    let ghost mv = ps[b as int];
                    assert(p@ == mv);
                    r.push(p);
                    let ghost nv = post_views(r@);
                    assert(nv =~= rv.push(mv));
                    assert(nv[rv.len() as int] == mv);
                    let ghost ncand = still_to_list(pick, order, nv);
                    assert(nv.last() == mv);
                    proof {
                        assert forall|x: PostV| #[trigger] ncand(x) implies cand(x) by {}
                        lemma_count_monotone(ps, ncand, cand, b as int);
                        let same = |x: PostV| x == mv;
                        assert forall|t: int| 0 <= t < ps.len() implies #[trigger] cand(ps[t]) == (ncand(ps[t]) || same(ps[t])) by {
                            if cand(ps[t]) && t != b {
                                assert(precedes(order, mv, ps[t]));
                            }
                        }
                        assert forall|t: int| 0 <= t < ps.len() implies !(#[trigger] ncand(ps[t]) && same(ps[t])) by {}
                        lemma_count_split(ps, cand, ncand, same);
                        lemma_count_single(ps, b as int);
                        assert(same =~= (|x: PostV| x == ps[b as int]));
                        assert(count_where(ps, cand) == count_where(ps, ncand) + 1);
                        assert forall|y: PostV| rv.contains(y) implies nv.contains(y) by {
                            let w = choose|w: int| 0 <= w < rv.len() && rv[w] == y;
                            assert(nv[w] == y);
                        }
                        assert forall|j: int|
                            0 <= j < ps.len() && pick(#[trigger] ps[j]) && !nv.contains(ps[j]) implies ncand(ps[j]) by {
                            assert(!rv.contains(ps[j]));
                            assert(cand(ps[j]));
                            if j == b {
                                assert(nv[rv.len() as int] == ps[j]);
                            }
                        }
                        assert forall|i: int| 0 <= i < nv.len() implies ps.contains(#[trigger] nv[i]) && pick(nv[i]) by {
                            if i == rv.len() {
                                assert(ps[b as int] == nv[i]);
                            } else {
                                assert(nv[i] == rv[i]);
                            }
                        }
                        assert forall|i: int, j: int| 0 <= i < j < nv.len() implies precedes(order, #[trigger] nv[i], #[trigger] nv[j]) by {
                            if j == rv.len() {
                                assert(nv[i] == rv[i]);
                                if i < rv.len() - 1 {
                                    assert(precedes(order, rv[i], rv.last()));
                                }
                            } else {
                                assert(nv[i] == rv[i]);
                                assert(nv[j] == rv[j]);
                            }
                        }
                        assert forall|j: int, i: int|
                            0 <= j < ps.len() && pick(#[trigger] ps[j]) && 0 <= i < nv.len() && precedes(order, ps[j], #[trigger] nv[i])
                                implies nv.contains(ps[j]) by {
                            if i < rv.len() {
                                assert(nv[i] == rv[i]);
                                assert(rv.contains(ps[j]));
                            } else if !nv.contains(ps[j]) {
                                assert(ncand(ps[j]));
                            }
                        }
                    }
                },
            }
        }
        r
    }

    /// The posts that `m` does not pick, in their order.
    fn posts_not_picked(&self, m: &PostMatch) -> (r: Vec<Post>)
        requires
            self.wf(),
        ensures
            post_views(r@) == keep_where(self@.posts, not_picked(m.picks())),
            r@.len() <= self@.posts.len(),
            ids_ascending(post_views(r@)),
            forall|i: int| 0 <= i < r@.len() ==> 0 < #[trigger] r@[i].id <= self@.last_post_id,
    {
        let ghost ps = self@.posts;
        let ghost keep = not_picked(m.picks());
        let mut out: Vec<Post> = Vec::new();
        for i in 0..self.posts.len()
            invariant
                self.wf(),
                ps == self@.posts,
                keep == not_picked(m.picks()),
                post_views(out@) == keep_where(ps.take(i as int), keep),
                out@.len() <= i,
                ids_ascending(post_views(out@)),
                forall|k: int| 0 <= k < out@.len() ==> 0 < #[trigger] out@[k].id <= self@.last_post_id,
                forall|k: int, j: int| 0 <= k < out@.len() && i <= j < ps.len() ==> #[trigger] out@[k].id < #[trigger] ps[j].id,
        {
            assert(ps.take(i + 1).drop_last() =~= ps.take(i as int));
            assert(ps.take(i + 1).last() == ps[i as int]);
            assert(ps[i as int] == self.posts@[i as int]@);
            let ghost before = out@;
            if !m.test(&self.posts[i]) {
                let p = self.posts[i].clone();
                out.push(p);
                assert(out@ == before.push(p));
                assert(0 < p.id <= self@.last_post_id);
                assert(post_views(out@) =~= post_views(before).push(p@));
            }
            assert(post_views(out@) =~= keep_where(ps.take(i + 1), keep));
        }
        assert(ps.take(self.posts.len() as int) =~= ps);
        out
    }




}

/// Removes the board `slug` and every post on it.
pub fn delete_board(store: &mut Store, slug: &str) -> (r: Result<(), StoreError>)
    requires
        old(store).wf(),
    ensures
        final(store).wf(),
        removal_keeps_references(old(store)@.posts, on_board(slug@)) ==> r is Ok && final(store)@
            == old(store)@.with_posts(keep_where(old(store)@.posts, not_picked(on_board(slug@)))).with_boards(
            keep_where(old(store)@.boards, slug_is_not(slug@)),
        ),
        !removal_keeps_references(old(store)@.posts, on_board(slug@)) ==> r == Err::<(), StoreError>(
            StoreError::ForeignKey,
        ) && final(store)@ == old(store)@,
{
    let ghost s0 = store@;
    let slug_chars = chars_of(slug);
    let m = PostMatch::OnBoard(chars_of(slug));
    if !store.removal_is_clean(&m) {
        return Err(StoreError::ForeignKey);
    }
    let kept = store.posts_not_picked(&m);
    store.posts = kept;
    let ghost bs = s0.boards;
    let ghost keep = slug_is_not(slug@);
    let mut out: Vec<Board> = Vec::new();
    for i in 0..store.boards.len()
        invariant
            bs == board_views(store.boards@),
            keep == slug_is_not(slug@),
            slug_chars@ == slug@,
            slugs_ascending(bs),
            forall|k: int| 0 <= k < bs.len() ==> 0 < #[trigger] bs[k].id <= s0.last_board_id,
            board_views(out@) == keep_where(bs.take(i as int), keep),
            out@.len() <= i,
            slugs_ascending(board_views(out@)),
            forall|k: int| 0 <= k < out@.len() ==> 0 < #[trigger] out@[k].id <= s0.last_board_id,
            forall|k: int, j: int| 0 <= k < out@.len() && i <= j < bs.len() ==> text_lt(#[trigger] out@[k].slug@, #[trigger] bs[j].slug),
    {
        assert(bs.take(i + 1).drop_last() =~= bs.take(i as int));
        assert(bs.take(i + 1).last() == bs[i as int]);
        assert(bs[i as int] == store.boards@[i as int]@);
        let ghost before = out@;
        let here = chars_of(store.boards[i].slug.as_str());
        if !same_chars(&here, &slug_chars) {
            let b = store.boards[i].clone();
            assert(b@ == bs[i as int]);
            assert(0 < bs[i as int].id <= s0.last_board_id);
            out.push(b);
            assert(board_views(out@) =~= board_views(before).push(b@));
            assert(out@[out@.len() - 1] == b);
            assert forall|k: int, j: int| 0 <= k < out@.len() && i + 1 <= j < bs.len() implies text_lt(#[trigger] out@[k].slug@, #[trigger] bs[j].slug) by {
                if k == out@.len() - 1 {
                    assert(out@[k] == b);
                    assert(text_lt(bs[i as int].slug, bs[j].slug));
                } else {
                    assert(out@[k] == before[k]);
                }
            }
        }
        assert(board_views(out@) =~= keep_where(bs.take(i + 1), keep));
    }
    assert(bs.take(store.boards.len() as int) =~= bs);
    store.boards = out;
    assert(store@ =~= s0.with_posts(keep_where(s0.posts, not_picked(on_board(slug@)))).with_boards(keep_where(s0.boards, slug_is_not(slug@))));
    Ok(())
}

/// Removes the post `post_id` and every reply to it, unless a post that stays replies to one
/// of them.
pub fn delete_post(store: &mut Store, post_id: i64) -> (r: Result<(), StoreError>)
    requires
        old(store).wf(),
    ensures
        final(store).wf(),
        removal_keeps_references(old(store)@.posts, in_thread(post_id)) ==> r is Ok && final(store)@
            == old(store)@.with_posts(keep_where(old(store)@.posts, not_picked(in_thread(post_id)))),
        !removal_keeps_references(old(store)@.posts, in_thread(post_id)) ==> r == Err::<(), StoreError>(
            StoreError::ForeignKey,
        ) && final(store)@ == old(store)@,
{
    let m = PostMatch::InThread(post_id);
    if !store.removal_is_clean(&m) {
        return Err(StoreError::ForeignKey);
    }
    let kept = store.posts_not_picked(&m);
    store.posts = kept;
    Ok(())
}

/// Puts `[LOCKED] ` before the content of the post `thread_id` (if there is one).
pub fn lock_thread(store: &mut Store, thread_id: i64)
    requires
        old(store).wf(),
    ensures
        final(store).wf(),
        final(store)@ == old(store)@.with_posts(locked_posts(old(store)@.posts, thread_id)),
{
    let ghost s0 = store@;
    let ghost ps = s0.posts;
    let prefix: Vec<char> = vec!['[', 'L', 'O', 'C', 'K', 'E', 'D', ']', ' '];
    assert(prefix@ == locked_prefix());
    let mut out: Vec<Post> = Vec::new();
    for i in 0..store.posts.len()
        invariant
            ps == post_views(store.posts@),
            prefix@ == locked_prefix(),
            post_views(out@) == locked_posts(ps.take(i as int), thread_id),
    {
        let p = store.posts[i].clone();
        assert(p@ == ps[i as int]);
        let ghost before = out@;
        if p.id == thread_id {
            let mut content = String::new();
            push_all(&mut content, &prefix);
            crate::text::push_str(&mut content, p.content.as_str());
            let q = Post {
                id: p.id,
                board_slug: p.board_slug,
                thread_id: p.thread_id,
                author_id: p.author_id,
                content,
                image_path: p.image_path,
                image_name: p.image_name,
                created_at: p.created_at,
                bump_time: p.bump_time,
            };
            out.push(q);
            assert(post_views(out@) =~= post_views(before).push(q@));
        } else {
            out.push(p);
            assert(post_views(out@) =~= post_views(before).push(p@));
        }
        assert(post_views(out@) =~= locked_posts(ps.take(i + 1), thread_id));
    }
    assert(ps.take(store.posts.len() as int) =~= ps);
    store.posts = out;
    assert(store@ =~= s0.with_posts(locked_posts(ps, thread_id)));
}

/// Moves the thread `thread_id` (its opening post and its replies) to the board
/// `new_board_slug`, where `thread_id` is an opening post; otherwise nothing changes. Refused
/// where that board does not exist.
pub fn move_thread(store: &mut Store, thread_id: i64, new_board_slug: &str) -> (r: Result<(), StoreError>)
    requires
        old(store).wf(),
    ensures
        final(store).wf(),
        has_opening_post(old(store)@.posts, thread_id) && has_slug(old(store)@.boards, new_board_slug@)
            ==> r is Ok && final(store)@ == old(store)@.with_posts(
            moved_posts(old(store)@.posts, thread_id, new_board_slug@),
        ),
        has_opening_post(old(store)@.posts, thread_id) && !has_slug(old(store)@.boards, new_board_slug@)
            ==> r == Err::<(), StoreError>(StoreError::ForeignKey) && final(store)@ == old(store)@,
        !has_opening_post(old(store)@.posts, thread_id) ==> r is Ok && final(store)@ == old(store)@,
{
    let ghost s0 = store@;
    let ghost ps = s0.posts;
    let mut found = false;
    for i in 0..store.posts.len()
        invariant
            ps == post_views(store.posts@),
            found ==> has_opening_post(ps, thread_id),
            !found ==> forall|k: int| 0 <= k < i ==> !(ps[k].id == thread_id && ps[k].thread_id is None),
    {
        assert(ps[i as int] == store.posts@[i as int]@);
        if store.posts[i].id == thread_id && store.posts[i].thread_id.is_none() {
            found = true;
        }
    }
    if !found {
        return Ok(());
    }
    if !store.has_board(new_board_slug) {
        return Err(StoreError::ForeignKey);
    }
    let mut out: Vec<Post> = Vec::new();
    for i in 0..store.posts.len()
        invariant
            ps == post_views(store.posts@),
            post_views(out@) == moved_posts(ps.take(i as int), thread_id, new_board_slug@),
    {
        let p = store.posts[i].clone();
        assert(p@ == ps[i as int]);
        let ghost before = out@;
        let in_it = p.id == thread_id || match p.thread_id {
            Some(t) => t == thread_id,
            None => false,
        };
        if in_it {
            let q = Post {
                id: p.id,
                board_slug: String::from_str(new_board_slug),
                thread_id: p.thread_id,
                author_id: p.author_id,
                content: p.content,
                image_path: p.image_path,
                image_name: p.image_name,
                created_at: p.created_at,
                bump_time: p.bump_time,
            };
            out.push(q);
            assert(post_views(out@) =~= post_views(before).push(q@));
        } else {
            out.push(p);
            assert(post_views(out@) =~= post_views(before).push(p@));
        }
        assert(post_views(out@) =~= moved_posts(ps.take(i + 1), thread_id, new_board_slug@));
    }
    assert(ps.take(store.posts.len() as int) =~= ps);
    store.posts = out;
    assert(store@ =~= s0.with_posts(moved_posts(ps, thread_id, new_board_slug@)));
    Ok(())
}

impl Store {
    /// How many posts `m` picks.
    fn count_posts(&self, m: &PostMatch) -> (n: i64)
        requires
            self.wf(),
        ensures
            n == count_where(self@.posts, m.picks()),
    {
        let ghost ps = self@.posts;
        let mut n: i64 = 0;
        for i in 0..self.posts.len()
            invariant
                self.wf(),
                ps == self@.posts,
                n == count_where(ps.take(i as int), m.picks()),
                n <= i,
        {
            assert(ps.take(i + 1).drop_last() =~= ps.take(i as int));
            assert(ps[i as int] == self.posts@[i as int]@);
            if m.test(&self.posts[i]) {
                n = n + 1;
            }
        }
        assert(ps.take(self.posts.len() as int) =~= ps);
        n
    }



    /// Makes a post at the time `now` with the next post id; where it replies to
    /// `thread_id`, the post with that id is bumped to `now`. `Full` where ids have run out.
    pub fn insert_post_at(
        &mut self,
        now: Timestamp,
        board_slug: &str,
        thread_id: Option<i64>,
        author_id: &str,
        content: &str,
        image_path: Option<&str>,
        image_name: Option<&str>,
    ) -> (r: Result<i64, StoreError>)
        requires
            old(self).wf(),
        ensures
            final(self).wf(),
            old(self)@.last_post_id == i64::MAX ==> r == Err::<i64, StoreError>(StoreError::Full)
                && final(self)@ == old(self)@,
            old(self)@.last_post_id < i64::MAX && !new_post_references_hold(old(self)@, board_slug@, thread_id)
                ==> r == Err::<i64, StoreError>(StoreError::ForeignKey) && final(self)@ == old(self)@,
            old(self)@.last_post_id < i64::MAX && new_post_references_hold(old(self)@, board_slug@, thread_id)
                ==> r == Ok::<i64, StoreError>((old(self)@.last_post_id + 1) as i64) && final(self)@
                == old(self)@.with_new_post(
                board_slug@,
                thread_id,
                author_id@,
                content@,
                opt_text_of(image_path),
                opt_text_of(image_name),
                now,
            ),
    {
        if self.last_post_id == i64::MAX {
            return Err(StoreError::Full);
        }
        let refs_hold = self.has_board(board_slug) && match thread_id {
            Some(t) => self.has_post_with_id(t) || t == self.last_post_id + 1,
            None => true,
        };
        if !refs_hold {
            return Err(StoreError::ForeignKey);
        }
        let ghost s0 = self@;
        let ghost ps = s0.posts;
        let id = self.last_post_id + 1;
        let mut out: Vec<Post> = Vec::new();
        match thread_id {
            Some(t) => {
                for i in 0..self.posts.len()
                    invariant
                        ps == post_views(self.posts@),
                        post_views(out@) == bumped_posts(ps.take(i as int), t, now),
                {
                    let p = self.posts[i].clone();
                    assert(p@ == ps[i as int]);
                    let ghost before = out@;
                    if p.id == t {
                        let q = Post {
                            id: p.id,
                            board_slug: p.board_slug,
                            thread_id: p.thread_id,
                            author_id: p.author_id,
                            content: p.content,
                            image_path: p.image_path,
                            image_name: p.image_name,
                            created_at: p.created_at,
                            bump_time: now,
                        };
                        out.push(q);
                        assert(post_views(out@) =~= post_views(before).push(q@));
                    } else {
                        out.push(p);
                        assert(post_views(out@) =~= post_views(before).push(p@));
                    }
                    assert(post_views(out@) =~= bumped_posts(ps.take(i + 1), t, now));
                }
                assert(ps.take(self.posts.len() as int) =~= ps);
            },
            None => {
                for i in 0..self.posts.len()
                    invariant
                        ps == post_views(self.posts@),
                        post_views(out@) == ps.take(i as int),
                {
                    let p = self.posts[i].clone();
                    assert(p@ == ps[i as int]);
                    let ghost before = out@;
                    out.push(p);
                    assert(post_views(out@) =~= post_views(before).push(p@));
                    assert(post_views(out@) =~= ps.take(i + 1));
                }
                assert(ps.take(self.posts.len() as int) =~= ps);
            },
        }
        let image_path_owned = match image_path {
            Some(x) => Some(String::from_str(x)),
            None => None,
        };
        let image_name_owned = match image_name {
            Some(x) => Some(String::from_str(x)),
            None => None,
        };
        let np = Post {
            id,
            board_slug: String::from_str(board_slug),
            thread_id,
            author_id: String::from_str(author_id),
            content: String::from_str(content),
            image_path: image_path_owned,
            image_name: image_name_owned,
            created_at: now,
            bump_time: now,
        };
        let ghost before = out@;
        out.push(np);
        assert(post_views(out@) =~= post_views(before).push(np@));
        self.posts = out;
        self.last_post_id = id;
        assert(self@ =~= s0.with_new_post(
            board_slug@,
            thread_id,
            author_id@,
            content@,
            opt_text_of(image_path),
            opt_text_of(image_name),
            now,
        ));
        Ok(id)
    }

}

/// How many posts there are.
pub fn get_post_count(store: &Store) -> (n: i64)
    requires
        store.wf(),
    ensures
        n == store@.posts.len(),
{
    store.posts.len() as i64
}

/// How many boards, posts and threads (opening posts) there are.
pub fn get_admin_stats(store: &Store) -> (r: AdminStats)
    requires
        store.wf(),
    ensures
        r.total_boards == store@.boards.len(),
        r.total_posts == store@.posts.len(),
        r.total_threads == count_where(store@.posts, opening_post()),
{
    let threads = store.count_posts(&PostMatch::Opening);
    AdminStats {
        total_boards: store.boards.len() as i64,
        total_posts: store.posts.len() as i64,
        total_threads: threads,
    }
}

/// Makes a post now (by the system clock), as `insert_post_at` says.
pub fn create_post(
    store: &mut Store,
    board_slug: &str,
    thread_id: Option<i64>,
    author_id: &str,
    content: &str,
    image_path: Option<&str>,
    image_name: Option<&str>,
) -> (r: Result<i64, StoreError>)
    requires
        old(store).wf(),
    ensures
        final(store).wf(),
        old(store)@.last_post_id == i64::MAX ==> r == Err::<i64, StoreError>(StoreError::Full)
            && final(store)@ == old(store)@,
        old(store)@.last_post_id < i64::MAX && !new_post_references_hold(old(store)@, board_slug@, thread_id)
            ==> r == Err::<i64, StoreError>(StoreError::ForeignKey) && final(store)@ == old(store)@,
        old(store)@.last_post_id < i64::MAX && new_post_references_hold(old(store)@, board_slug@, thread_id)
            ==> r == Ok::<i64, StoreError>((old(store)@.last_post_id + 1) as i64) && final(store)@
            == old(store)@.with_new_post(
            board_slug@,
            thread_id,
            author_id@,
            content@,
            opt_text_of(image_path),
            opt_text_of(image_name),
            final(store)@.posts.last().created_at,
        ),
{
    let now = current_time();
    store.insert_post_at(now, board_slug, thread_id, author_id, content, image_path, image_name)
}

impl Store {
    /// Whether a board has the slug `slug`.
    fn has_board(&self, slug: &str) -> (r: bool)
        requires
            self.wf(),
        ensures
            r == has_slug(self@.boards, slug@),
    {
        let slug_chars = chars_of(slug);
        let p = self.board_position(&slug_chars);
        p < self.boards.len() && same_text(self.boards[p].slug.as_str(), slug)
    }

    /// Whether a post has the id `id`.
    fn has_post_with_id(&self, id: i64) -> (r: bool)
        requires
            self.wf(),
        ensures
            r == has_post(self@.posts, id),
    {
        let ghost ps = self@.posts;
        for i in 0..self.posts.len()
            invariant
                ps == self@.posts,
                forall|k: int| 0 <= k < i ==> ps[k].id != id,
        {
            assert(ps[i as int] == self.posts@[i as int]@);
            if self.posts[i].id == id {
                return true;
            }
        }
        false
    }

    /// Whether removing the posts `m` picks leaves no post replying to a removed one.
    fn removal_is_clean(&self, m: &PostMatch) -> (r: bool)
        requires
            self.wf(),
        ensures
            r == removal_keeps_references(self@.posts, m.picks()),
    {
        let ghost ps = self@.posts;
        let ghost removed = m.picks();
        for i in 0..self.posts.len()
            invariant
                ps == self@.posts,
                removed == m.picks(),
                forall|a: int, b: int|
                    0 <= a < i && 0 <= b < ps.len() && !removed(#[trigger] ps[a]) && removed(#[trigger] ps[b])
                        ==> ps[a].thread_id != Some(ps[b].id),
        {
            assert(ps[i as int] == self.posts@[i as int]@);
            if !m.test(&self.posts[i]) {
                if let Some(t) = self.posts[i].thread_id {
                    for j in 0..self.posts.len()
                        invariant
                            ps == self@.posts,
                            removed == m.picks(),
                            i < ps.len(),
                            !removed(ps[i as int]),
                            ps[i as int].thread_id == Some(t),
                            forall|b: int| 0 <= b < j ==> !(ps[b].id == t && removed(#[trigger] ps[b])),
                    {
                        assert(ps[j as int] == self.posts@[j as int]@);
                        if self.posts[j].id == t && m.test(&self.posts[j]) {
                            assert(!removed(ps[i as int]) && removed(ps[j as int]));
                            return false;
                        }
                    }
                }
            }
        }
        true
    }
}

/// The value of a store made of these parts.
pub open spec fn store_value(boards: Seq<Board>, posts: Seq<Post>, last_board_id: i64, last_post_id: i64) -> StoreV {
    StoreV { boards: board_views(boards), posts: post_views(posts), last_board_id, last_post_id, sessions: Seq::empty() }
}

/// `posts` in the opposite order.
fn reversed(posts: Vec<Post>) -> (r: Vec<Post>)
    ensures
        post_views(r@) == post_views(posts@).reverse(),
{
    let mut out: Vec<Post> = Vec::new();
    let n = posts.len();
    let mut i: usize = n;
    while i > 0
        invariant
            i <= n,
            n == posts@.len(),
            post_views(out@) == post_views(posts@).reverse().take((n - i) as int),
        decreases i,
    {
        i = i - 1;
        let p = posts[i].clone();
        let ghost before = out@;
        out.push(p);
        assert(post_views(out@) =~= post_views(before).push(p@));
        assert(post_views(out@) =~= post_views(posts@).reverse().take((n - i) as int));
    }
    assert(post_views(posts@).reverse().take(n as int) =~= post_views(posts@).reverse());
    out
}


/// A board page's threads: the 10 most recently bumped opening posts on the board, each
/// with its 3 newest replies (shown oldest first) and its number of replies.
pub fn get_threads(store: &Store, board_slug: &str) -> (r: Vec<Thread>)
    requires
        store.wf(),
    ensures
        is_top(
            store@.posts,
            opening_posts_on(board_slug@),
            PostOrder::BumpedFirst,
            Some(THREADS_PER_BOARD_PAGE as nat),
            thread_ops(r@),
        ),
        forall|i: int|
            0 <= i < r@.len() ==> is_top(
                store@.posts,
                replies_to(#[trigger] r@[i].op.id),
                PostOrder::NewestFirst,
                Some(REPLIES_PER_PREVIEW as nat),
                post_views(r@[i].replies@).reverse(),
            ),
        forall|i: int|
            0 <= i < r@.len() ==> #[trigger] r@[i].reply_count == count_where(
                store@.posts,
                replies_to(r@[i].op.id),
            ),
        r@.len() == listed_count(
            count_where(store@.posts, opening_posts_on(board_slug@)),
            Some(THREADS_PER_BOARD_PAGE as nat),
        ),
        forall|i: int|
            0 <= i < r@.len() ==> #[trigger] r@[i].replies@.len() == listed_count(
                r@[i].reply_count as nat,
                Some(REPLIES_PER_PREVIEW as nat),
            ),
{
    let ops = store.select_posts(
        &PostMatch::OpeningPostsOn(chars_of(board_slug)),
        PostOrder::BumpedFirst,
        Some(THREADS_PER_BOARD_PAGE),
    );
    let ghost opv = post_views(ops@);
    let mut threads: Vec<Thread> = Vec::new();
    for i in 0..ops.len()
        invariant
            store.wf(),
            opv == post_views(ops@),
            thread_ops(threads@) == opv.take(i as int),
            forall|k: int|
                0 <= k < threads@.len() ==> is_top(
                    store@.posts,
                    replies_to(#[trigger] threads@[k].op.id),
                    PostOrder::NewestFirst,
                    Some(REPLIES_PER_PREVIEW as nat),
                    post_views(threads@[k].replies@).reverse(),
                ),
            forall|k: int|
                0 <= k < threads@.len() ==> #[trigger] threads@[k].reply_count == count_where(
                    store@.posts,
                    replies_to(threads@[k].op.id),
                ),
            forall|k: int|
                0 <= k < threads@.len() ==> #[trigger] threads@[k].replies@.len() == listed_count(
                    threads@[k].reply_count as nat,
                    Some(REPLIES_PER_PREVIEW as nat),
                ),
    {
        let op = ops[i].clone();
        let id = op.id;
        let newest = store.select_posts(&PostMatch::RepliesTo(id), PostOrder::NewestFirst, Some(REPLIES_PER_PREVIEW));
        let ghost nv = post_views(newest@);
        let replies = reversed(newest);
        assert(post_views(replies@).reverse() =~= nv);
        let reply_count = store.count_posts(&PostMatch::RepliesTo(id));
        let t = Thread { op, replies, reply_count };
        let ghost before = threads@;
        let ghost tv = t;
        assert(thread_ops(before).len() == i);
        threads.push(t);
        assert(threads@ == before.push(tv));
        assert(tv.op@ == opv[i as int]);
        assert(thread_ops(threads@) =~= opv.take(i + 1));
        // The threads listed before keep what the invariant says of them.
        assert forall|k: int| 0 <= k < i implies #[trigger] threads@[k] == before[k] by {}
    }
    assert(opv.take(ops.len() as int) =~= opv);
    threads
}

/// The thread `thread_id` with all its replies, oldest first, where `thread_id` is an
/// opening post.
pub fn get_thread(store: &Store, thread_id: i64) -> (r: Option<Thread>)
    requires
        store.wf(),
    ensures
        r is Some <==> has_opening_post(store@.posts, thread_id),
        match r {
            Some(t) => {
                &&& store@.posts.contains(t.op@)
                &&& t.op.id == thread_id
                &&& t.op.thread_id is None
                &&& is_top(store@.posts, replies_to(thread_id), PostOrder::OldestFirst, None, post_views(t.replies@))
                &&& t.reply_count == count_where(store@.posts, replies_to(thread_id))
                &&& t.replies@.len() == t.reply_count
            },
            None => true,
        },
{
    let ghost ps = store@.posts;
    let mut found: Option<usize> = None;
    for i in 0..store.posts.len()
        invariant
            store.wf(),
            ps == store@.posts,
            match found {
                Some(k) => k < ps.len() && ps[k as int].id == thread_id && ps[k as int].thread_id is None,
                None => forall|k: int| 0 <= k < i ==> !(ps[k].id == thread_id && ps[k].thread_id is None),
            },
    {
        assert(ps[i as int] == store.posts@[i as int]@);
        if store.posts[i].id == thread_id && store.posts[i].thread_id.is_none() {
            found = Some(i);
        }
    }
    match found {
        None => None,
        Some(k) => {
            let op = store.posts[k].clone();
            assert(ps[k as int] == store.posts@[k as int]@);
            let replies = store.select_posts(&PostMatch::RepliesTo(thread_id), PostOrder::OldestFirst, None);
            let reply_count = store.count_posts(&PostMatch::RepliesTo(thread_id));
            Some(Thread { op, replies, reply_count })
        },
    }
}

/// A moderator's listing: all posts, newest first, from position `offset` on (none where
/// negative), at most `limit` of them (all where `limit` is negative).
pub fn get_all_posts(store: &Store, limit: i64, offset: i64) -> (r: Vec<PostWithBoard>)
    requires
        store.wf(),
    ensures
        exists|full: Seq<PostV>|
            is_top(store@.posts, any_post(), PostOrder::NewestFirst, listing_limit(limit, offset), full)
                && listing_views(r@) == from_position(full, if offset < 0 { 0 } else { offset as int }),
        r@.len() == window_count(store@.posts.len(), limit, offset),
{
    let skip: u64 = if offset < 0 { 0 } else { offset as u64 };
    let n = store.posts.len();
    proof {
        assert forall|i: int| 0 <= i < store@.posts.len() implies #[trigger] (any_post())(store@.posts[i]) by {}
        lemma_count_all(store@.posts, any_post());
    }
    let full = if limit < 0 {
        store.select_posts(&PostMatch::Any, PostOrder::NewestFirst, None)
    } else {
        let want: u128 = (skip as u128) + (limit as u128);
        if want >= n as u128 {
            let all = store.select_posts(&PostMatch::Any, PostOrder::NewestFirst, None);
            proof {
                lemma_count_le_len(store@.posts, any_post());
            }
            all
        } else {
            store.select_posts(&PostMatch::Any, PostOrder::NewestFirst, Some(want as usize))
        }
    };
    let ghost fv = post_views(full@);
    let mut out: Vec<PostWithBoard> = Vec::new();
    if skip < full.len() as u64 {
        let start = skip as usize;
        for i in start..full.len()
            invariant
                fv == post_views(full@),
                start <= full.len(),
                listing_views(out@) == fv.skip(start as int).take(i - start),
        {
            let p = PostWithBoard::from_post(&full[i]);
            let ghost before = out@;
            out.push(p);
            assert(listing_views(out@) =~= listing_views(before).push(p@));
            assert(listing_views(out@) =~= fv.skip(start as int).take(i + 1 - start));
        }
        assert(fv.skip(start as int).take(full.len() - start) =~= fv.skip(start as int));
    } else {
        assert(listing_views(out@) =~= Seq::<PostV>::empty());
    }
    assert(is_top(store@.posts, any_post(), PostOrder::NewestFirst, listing_limit(limit, offset), fv));
    out
}

impl Store {
    /// A store made of saved parts, where they meet the store's invariant (with no session
    /// yet: saved sessions are handed out again with `add_session`).
    pub fn from_parts(boards: Vec<Board>, posts: Vec<Post>, last_board_id: i64, last_post_id: i64) -> (r: Option<Store>)
        ensures
            r is Some <==> store_value(boards@, posts@, last_board_id, last_post_id).well_formed(),
            match r {
                Some(s) => s@ == store_value(boards@, posts@, last_board_id, last_post_id),
                None => true,
            },
    {
        let ghost v = store_value(boards@, posts@, last_board_id, last_post_id);
        if last_board_id < 0 || last_post_id < 0 {
            return None;
        }
        if boards.len() as u64 > last_board_id as u64 || posts.len() as u64 > last_post_id as u64 {
            return None;
        }
        let ghost bs = v.boards;
        for i in 0..boards.len()
            invariant
                v == store_value(boards@, posts@, last_board_id, last_post_id),
                bs == v.boards,
                bs == board_views(boards@),
                forall|k: int| 0 <= k < i ==> 0 < #[trigger] bs[k].id <= last_board_id,
                forall|a: int, b: int| 0 <= a < b < i ==> text_lt(#[trigger] bs[a].slug, #[trigger] bs[b].slug),
        {
            assert(bs[i as int] == boards@[i as int]@);
            if boards[i].id <= 0 || boards[i].id > last_board_id {
                assert(!(0 < v.boards[i as int].id <= v.last_board_id));
                return None;
            }
            if i > 0 {
                let prev = chars_of(boards[i - 1].slug.as_str());
                let here = chars_of(boards[i].slug.as_str());
                assert(bs[i - 1] == boards@[i - 1]@);
                if !text_less(&prev, &here) {
                    assert(!text_lt(v.boards[i - 1].slug, v.boards[i as int].slug));
                    return None;
                }
                assert forall|a: int, b: int| 0 <= a < b < i + 1 implies text_lt(#[trigger] bs[a].slug, #[trigger] bs[b].slug) by {
                    if b == i && a < i - 1 {
                        lemma_text_lt_transitive(bs[a].slug, bs[i - 1].slug, bs[b].slug);
                    }
                }
            }
        }
        let ghost ps = v.posts;
        for i in 0..posts.len()
            invariant
                v == store_value(boards@, posts@, last_board_id, last_post_id),
                ps == v.posts,
                ps == post_views(posts@),
                forall|k: int| 0 <= k < i ==> 0 < #[trigger] ps[k].id <= last_post_id,
                forall|a: int, b: int| 0 <= a < b < i ==> #[trigger] ps[a].id < #[trigger] ps[b].id,
        {
            assert(ps[i as int] == posts@[i as int]@);
            if posts[i].id <= 0 || posts[i].id > last_post_id {
                assert(!(0 < v.posts[i as int].id <= v.last_post_id));
                return None;
            }
            if i > 0 {
                assert(ps[i - 1] == posts@[i - 1]@);
                if posts[i - 1].id >= posts[i].id {
                    assert(!(v.posts[i - 1].id < v.posts[i as int].id));
                    return None;
                }
                assert forall|a: int, b: int| 0 <= a < b < i + 1 implies #[trigger] ps[a].id < #[trigger] ps[b].id by {
                    if b == i && a < i - 1 {
                        assert(ps[a].id < ps[i - 1].id);
                    }
                }
            }
        }
        let s = Store { boards, posts, last_board_id, last_post_id, sessions: Vec::new() };
        assert(s@.sessions =~= Seq::<Seq<char>>::empty());
        assert(s@ == v);
        Some(s)
    }

    /// Every post, in ascending order of id.
    pub fn get_posts(&self) -> (r: Vec<Post>)
        requires
            self.wf(),
        ensures
            post_views(r@) == self@.posts,
    {
        let ghost ps = self@.posts;
        let mut out: Vec<Post> = Vec::new();
        for i in 0..self.posts.len()
            invariant
                ps == post_views(self.posts@),
                post_views(out@) == ps.take(i as int),
        {
            let p = self.posts[i].clone();
            assert(p@ == ps[i as int]);
            let ghost before = out@;
            out.push(p);
            assert(post_views(out@) =~= post_views(before).push(p@));
            assert(post_views(out@) =~= ps.take(i + 1));
        }
        assert(ps.take(self.posts.len() as int) =~= ps);
        out
    }

    /// The most recently made post (the one with the largest id), if there is any.
    pub fn newest_post(&self) -> (r: Option<Post>)
        requires
            self.wf(),
        ensures
            self@.posts.len() == 0 ==> r is None,
            self@.posts.len() > 0 ==> r is Some && r->0@ == self@.posts.last(),
    {
        if self.posts.len() == 0 {
            None
        } else {
            let p = self.posts[self.posts.len() - 1].clone();
            assert(p@ == self@.posts.last());
            Some(p)
        }
    }

    /// The largest board id handed out so far.
    pub fn last_board_id(&self) -> (r: i64)
        ensures
            r == self@.last_board_id,
    {
        self.last_board_id
    }

    /// The largest post id handed out so far.
    pub fn last_post_id(&self) -> (r: i64)
        ensures
            r == self@.last_post_id,
    {
        self.last_post_id
    }
}

} // verus!
