use vstd::prelude::*;

verus! {

/// A point in time, as seconds since the Unix epoch and the nanoseconds within that second
/// (what a naive UTC date-time holds).
#[derive(Clone, Copy, Debug, PartialEq, Eq, Structural)]
pub struct Timestamp {
    pub secs: i64,
    pub nanos: u32,
}

impl Timestamp {
    /// `self` is strictly earlier than `other`.
    pub open spec fn earlier(self, other: Timestamp) -> bool {
        self.secs < other.secs || (self.secs == other.secs && self.nanos < other.nanos)
    }

    /// Decides `self.earlier(other)`.
    pub fn is_earlier(&self, other: &Timestamp) -> (r: bool)
        ensures
            r == self.earlier(*other),
    {
        self.secs < other.secs || (self.secs == other.secs && self.nanos < other.nanos)
    }
}

/// The value a `Option<String>` stands for.
pub open spec fn opt_str(o: Option<String>) -> Option<Seq<char>> {
    match o {
        Some(s) => Some(s@),
        None => None,
    }
}

/// A copy of an optional string.
pub fn copy_opt_string(o: &Option<String>) -> (r: Option<String>)
    ensures
        r == *o,
{
    match o {
        Some(s) => Some(s.clone()),
        None => None,
    }
}

/// A board: a named section of the site, found by its slug.
#[derive(Debug)]
pub struct Board {
    pub id: i64,
    pub slug: String,
    pub name: String,
    pub description: String,
}

/// The value of a board.
pub struct BoardV {
    pub id: i64,
    pub slug: Seq<char>,
    pub name: Seq<char>,
    pub description: Seq<char>,
}

impl View for Board {
    type V = BoardV;

    open spec fn view(&self) -> BoardV {
        BoardV { id: self.id, slug: self.slug@, name: self.name@, description: self.description@ }
    }
}

impl Clone for Board {
    fn clone(&self) -> (r: Board)
        ensures
            r == *self,
    {
        Board {
            id: self.id,
            slug: self.slug.clone(),
            name: self.name.clone(),
            description: self.description.clone(),
        }
    }
}

/// A post: the opening post of a thread (no `thread_id`) or a reply to one.
#[derive(Debug)]
pub struct Post {
    pub id: i64,
    pub board_slug: String,
    pub thread_id: Option<i64>,
    pub author_id: String,
    pub content: String,
    pub image_path: Option<String>,
    pub image_name: Option<String>,
    pub created_at: Timestamp,
    pub bump_time: Timestamp,
}

/// The value of a post.
pub struct PostV {
    pub id: i64,
    pub board_slug: Seq<char>,
    pub thread_id: Option<i64>,
    pub author_id: Seq<char>,
    pub content: Seq<char>,
    pub image_path: Option<Seq<char>>,
    pub image_name: Option<Seq<char>>,
    pub created_at: Timestamp,
    pub bump_time: Timestamp,
}

impl View for Post {
    type V = PostV;

    open spec fn view(&self) -> PostV {
        PostV {
            id: self.id,
            board_slug: self.board_slug@,
            thread_id: self.thread_id,
            author_id: self.author_id@,
            content: self.content@,
            image_path: opt_str(self.image_path),
            image_name: opt_str(self.image_name),
            created_at: self.created_at,
            bump_time: self.bump_time,
        }
    }
}

impl Clone for Post {
    fn clone(&self) -> (r: Post)
        ensures
            r == *self,
    {
        Post {
            id: self.id,
            board_slug: self.board_slug.clone(),
            thread_id: self.thread_id,
            author_id: self.author_id.clone(),
            content: self.content.clone(),
            image_path: copy_opt_string(&self.image_path),
            image_name: copy_opt_string(&self.image_name),
            created_at: self.created_at,
            bump_time: self.bump_time,
        }
    }
}

impl Post {
    /// A post opens a thread exactly when it replies to none.
    pub fn is_thread(&self) -> (r: bool)
        ensures
            r == self.thread_id.is_none(),
    {
        self.thread_id.is_none()
    }
}

/// A post as listed for moderators; it holds what a post holds.
#[derive(Debug)]
pub struct PostWithBoard {
    pub id: i64,
    pub board_slug: String,
    pub thread_id: Option<i64>,
    pub author_id: String,
    pub content: String,
    pub image_path: Option<String>,
    pub image_name: Option<String>,
    pub created_at: Timestamp,
    pub bump_time: Timestamp,
}

impl View for PostWithBoard {
    type V = PostV;

    open spec fn view(&self) -> PostV {
        PostV {
            id: self.id,
            board_slug: self.board_slug@,
            thread_id: self.thread_id,
            author_id: self.author_id@,
            content: self.content@,
            image_path: opt_str(self.image_path),
            image_name: opt_str(self.image_name),
            created_at: self.created_at,
            bump_time: self.bump_time,
        }
    }
}

impl PostWithBoard {
    /// The listing entry of a post.
    pub fn from_post(p: &Post) -> (r: PostWithBoard)
        ensures
            r@ == p@,
    {
        PostWithBoard {
            id: p.id,
            board_slug: p.board_slug.clone(),
            thread_id: p.thread_id,
            author_id: p.author_id.clone(),
            content: p.content.clone(),
            image_path: copy_opt_string(&p.image_path),
            image_name: copy_opt_string(&p.image_name),
            created_at: p.created_at,
            bump_time: p.bump_time,
        }
    }
}

/// A thread as shown: its opening post, some of its replies, and how many replies it has.
#[derive(Debug)]
pub struct Thread {
    pub op: Post,
    pub replies: Vec<Post>,
    pub reply_count: i64,
}

/// A post as submitted: its text and, optionally, an image and the image's file name.
#[derive(Debug)]
pub struct NewPost {
    pub content: String,
    pub image_data: Option<String>,
    pub image_name: Option<String>,
}

/// A board as submitted by a moderator.
#[derive(Debug)]
pub struct NewBoard {
    pub slug: String,
    pub name: String,
    pub description: String,
}

/// Counts shown on the moderators' dashboard.
#[derive(Debug, Clone, Copy, PartialEq, Eq, Structural)]
pub struct AdminStats {
    pub total_boards: i64,
    pub total_posts: i64,
    pub total_threads: i64,
}

impl Default for AdminStats {
    fn default() -> (r: AdminStats)
        ensures
            r.total_boards == 0,
            r.total_posts == 0,
            r.total_threads == 0,
    {
        AdminStats { total_boards: 0, total_posts: 0, total_threads: 0 }
    }
}

} // verus!
