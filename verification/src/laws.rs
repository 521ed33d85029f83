use vstd::prelude::*;
use crate::models::{BoardV, PostV, Timestamp};
use crate::db::{
    StoreV, PostOrder, precedes, is_top, ids_ascending, keep_where, count_where, not_picked,
    in_thread, on_board, slug_is_not, has_slug, board_named, moved_posts, bumped_posts,
    opening_post, lemma_count_le_len, slug_rank, slugs_ascending, seed_step, seeded, outcome_state,
    RANDOM_SLUG, RANDOM_NAME, RANDOM_DESCRIPTION, TECHNOLOGY_SLUG, TECHNOLOGY_NAME,
    TECHNOLOGY_DESCRIPTION, VIDEO_GAMES_SLUG, VIDEO_GAMES_NAME, VIDEO_GAMES_DESCRIPTION, ANIME_SLUG,
    ANIME_NAME, ANIME_DESCRIPTION, POLITICS_SLUG, POLITICS_NAME, POLITICS_DESCRIPTION, has_post,
    removal_keeps_references, new_post_references_hold, locked_posts, renamed_boards, locked_prefix,
};
use crate::handlers::{
    page_count, POSTS_PER_PAGE, SESSION_COOKIE_KEY, SESSION_COOKIE_ATTRIBUTES, cookie_value, session_cookie_at,
    holds_session, session_cookie, is_uuid_text,
};
use crate::text::{
    escape_html, escape_char, crlf_to_lf, split_lines, join_with, line_break, greentext,
    content_lines_html, text_lt, lemma_text_lt_irreflexive, lemma_text_lt_transitive,
    lemma_text_lt_total, lemma_escaped_has_no_gt,
};

verus! {

/// What `keep_where` keeps is picked and comes from the source.
pub proof fn lemma_keep_where_sound<A>(s: Seq<A>, f: spec_fn(A) -> bool)
    ensures
        forall|i: int| 0 <= i < keep_where(s, f).len() ==> f(#[trigger] keep_where(s, f)[i]) && s.contains(keep_where(s, f)[i]),
    decreases s.len(),
{
    if s.len() > 0 {
        lemma_keep_where_sound(s.drop_last(), f);
        let r = keep_where(s.drop_last(), f);
        assert forall|i: int| 0 <= i < keep_where(s, f).len() implies f(#[trigger] keep_where(s, f)[i]) && s.contains(keep_where(s, f)[i]) by {
            if i < r.len() {
                assert(keep_where(s, f)[i] == r[i]);
                let w = choose|w: int| 0 <= w < s.drop_last().len() && s.drop_last()[w] == r[i];
                assert(s[w] == r[i]);
            } else {
                assert(keep_where(s, f)[i] == s.last());
                assert(s[s.len() - 1] == s.last());
            }
        }
    }
}

/// Every element of the source that is picked is kept.
pub proof fn lemma_keep_where_complete<A>(s: Seq<A>, f: spec_fn(A) -> bool)
    ensures
        forall|i: int| 0 <= i < s.len() && f(#[trigger] s[i]) ==> keep_where(s, f).contains(s[i]),
    decreases s.len(),
{
    if s.len() > 0 {
        lemma_keep_where_complete(s.drop_last(), f);
        let r = keep_where(s.drop_last(), f);
        assert forall|i: int| 0 <= i < s.len() && f(#[trigger] s[i]) implies keep_where(s, f).contains(s[i]) by {
            if i < s.len() - 1 {
                assert(s[i] == s.drop_last()[i]);
                let w = choose|w: int| 0 <= w < r.len() && r[w] == s[i];
                assert(keep_where(s, f)[w] == s[i]);
            } else {
                assert(keep_where(s, f)[r.len() as int] == s[i]);
            }
        }
    }
}

/// Removing a post removes its replies with it: no post left is the post or replies to it,
/// and every other post stays.
pub proof fn law_delete_post_removes_thread(s: StoreV, id: i64)
    requires
        s.well_formed(),
    ensures
        forall|i: int|
            0 <= i < keep_where(s.posts, not_picked(in_thread(id))).len() ==> #[trigger] keep_where(s.posts, not_picked(in_thread(id)))[i].id != id
                && keep_where(s.posts, not_picked(in_thread(id)))[i].thread_id != Some(id),
        forall|i: int|
            0 <= i < s.posts.len() && #[trigger] s.posts[i].id != id && s.posts[i].thread_id != Some(id)
                ==> keep_where(s.posts, not_picked(in_thread(id))).contains(s.posts[i]),
{
    lemma_keep_where_sound(s.posts, not_picked(in_thread(id)));
    lemma_keep_where_complete(s.posts, not_picked(in_thread(id)));
    let k = keep_where(s.posts, not_picked(in_thread(id)));
    assert forall|i: int| 0 <= i < k.len() implies #[trigger] k[i].id != id && k[i].thread_id != Some(id) by {
        assert((not_picked(in_thread(id)))(k[i]));
    }
    assert forall|i: int| 0 <= i < s.posts.len() && #[trigger] s.posts[i].id != id && s.posts[i].thread_id != Some(id)
        implies k.contains(s.posts[i]) by {
        assert((not_picked(in_thread(id)))(s.posts[i]));
    }
}

/// Deleting a board removes it and every post on it, and keeps every other board and post.
pub proof fn law_delete_board_removes_its_posts(s: StoreV, slug: Seq<char>)
    requires
        s.well_formed(),
    ensures
        !has_slug(keep_where(s.boards, slug_is_not(slug)), slug),
        forall|i: int|
            0 <= i < keep_where(s.posts, not_picked(on_board(slug))).len() ==> #[trigger] keep_where(s.posts, not_picked(on_board(slug)))[i].board_slug != slug,
        forall|i: int|
            0 <= i < s.posts.len() && #[trigger] s.posts[i].board_slug != slug ==> keep_where(
                s.posts,
                not_picked(on_board(slug)),
            ).contains(s.posts[i]),
        forall|i: int|
            0 <= i < s.boards.len() && #[trigger] s.boards[i].slug != slug ==> keep_where(
                s.boards,
                slug_is_not(slug),
            ).contains(s.boards[i]),
{
    lemma_keep_where_sound(s.boards, slug_is_not(slug));
    lemma_keep_where_complete(s.boards, slug_is_not(slug));
    lemma_keep_where_sound(s.posts, not_picked(on_board(slug)));
    lemma_keep_where_complete(s.posts, not_picked(on_board(slug)));
    let kb = keep_where(s.boards, slug_is_not(slug));
    if has_slug(kb, slug) {
        let i = choose|i: int| 0 <= i < kb.len() && kb[i].slug == slug;
        assert((slug_is_not(slug))(kb[i]));
    }
    let kp = keep_where(s.posts, not_picked(on_board(slug)));
    assert forall|i: int| 0 <= i < kp.len() implies #[trigger] kp[i].board_slug != slug by {
        assert((not_picked(on_board(slug)))(kp[i]));
    }
    assert forall|i: int| 0 <= i < s.posts.len() && #[trigger] s.posts[i].board_slug != slug implies kp.contains(s.posts[i]) by {
        assert((not_picked(on_board(slug)))(s.posts[i]));
    }
    assert forall|i: int| 0 <= i < s.boards.len() && #[trigger] s.boards[i].slug != slug implies kb.contains(s.boards[i]) by {
        assert((slug_is_not(slug))(s.boards[i]));
    }
}

/// Moving a thread puts its opening post and its replies, and nothing else, on the new
/// board, and changes nothing else about any post.
pub proof fn law_move_thread_moves_only_the_thread(s: StoreV, id: i64, slug: Seq<char>)
    requires
        s.well_formed(),
    ensures
        moved_posts(s.posts, id, slug).len() == s.posts.len(),
        forall|i: int|
            0 <= i < s.posts.len() ==> {
                let p = s.posts[i];
                let q = #[trigger] moved_posts(s.posts, id, slug)[i];
                &&& q.board_slug == if p.id == id || p.thread_id == Some(id) {
                    slug
                } else {
                    p.board_slug
                }
                &&& q.id == p.id
                &&& q.thread_id == p.thread_id
                &&& q.content == p.content
                &&& q.author_id == p.author_id
                &&& q.created_at == p.created_at
                &&& q.bump_time == p.bump_time
            },
{
}

/// A reply bumps its thread to the moment it is made; the new post is last, with an id
/// larger than every id before it (ids are never reused).
pub proof fn law_new_post_is_last_and_bumps(
    s: StoreV,
    board_slug: Seq<char>,
    thread_id: Option<i64>,
    author_id: Seq<char>,
    content: Seq<char>,
    image_path: Option<Seq<char>>,
    image_name: Option<Seq<char>>,
    now: Timestamp,
)
    requires
        s.well_formed(),
        s.last_post_id < i64::MAX,
    ensures
        ({
            let t = s.with_new_post(board_slug, thread_id, author_id, content, image_path, image_name, now);
            &&& t.well_formed()
            &&& t.posts.len() == s.posts.len() + 1
            &&& t.posts.last().id == s.last_post_id + 1
            &&& t.posts.last().created_at == now
            &&& t.posts.last().bump_time == now
            &&& forall|i: int| 0 <= i < s.posts.len() ==> #[trigger] s.posts[i].id < t.posts.last().id
            &&& forall|i: int|
                0 <= i < s.posts.len() ==> (#[trigger] t.posts[i]).bump_time == if thread_id == Some(s.posts[i].id) {
                    now
                } else {
                    s.posts[i].bump_time
                }
        }),
{
    let t = s.with_new_post(board_slug, thread_id, author_id, content, image_path, image_name, now);
    let earlier = match thread_id {
        Some(x) => bumped_posts(s.posts, x, now),
        None => s.posts,
    };
    assert(earlier.len() == s.posts.len());
    assert(forall|i: int| 0 <= i < s.posts.len() ==> #[trigger] earlier[i].id == s.posts[i].id);
    assert(forall|i: int| 0 <= i < s.posts.len() ==> #[trigger] t.posts[i] == earlier[i]);
}

/// Creating a board makes it found by its slug, with the next board id; every other slug
/// finds what it found before.
pub proof fn law_created_board_is_found(s: StoreV, slug: Seq<char>, name: Seq<char>, description: Seq<char>, other: Seq<char>)
    requires
        s.well_formed(),
        s.last_board_id < i64::MAX,
        !has_slug(s.boards, slug),
    ensures
        board_named(s.with_new_board(slug, name, description).boards, slug) == Some(
            BoardV { id: (s.last_board_id + 1) as i64, slug, name, description },
        ),
        other != slug ==> board_named(s.with_new_board(slug, name, description).boards, other)
            == board_named(s.boards, other),
        s.with_new_board(slug, name, description).well_formed(),
{
    let p = slug_rank(s.boards, slug) as int;
    lemma_slug_rank_sorted(s.boards, slug);
    let nb = BoardV { id: (s.last_board_id + 1) as i64, slug, name, description };
    let t = s.with_new_board(slug, name, description);
    let bs = s.boards;
    let nbs = t.boards;
    assert(nbs == bs.insert(p, nb));
    assert forall|i: int| p <= i < bs.len() implies text_lt(slug, #[trigger] bs[i].slug) by {
        lemma_text_lt_total(slug, bs[i].slug);
    }
    assert forall|i: int, j: int| 0 <= i < j < nbs.len() implies text_lt(nbs[i].slug, nbs[j].slug) by {
        if j < p {
        } else if j == p {
        } else if i < p {
            lemma_text_lt_transitive(nbs[i].slug, slug, nbs[j].slug);
        } else if i == p {
        } else {
        }
    }
    assert(nbs[p] == nb);
    lemma_sorted_slug_unique(nbs, slug, p);
    if other != slug {
        if has_slug(bs, other) {
            let k = choose|k: int| 0 <= k < bs.len() && bs[k].slug == other;
            lemma_sorted_slug_unique(bs, other, k);
            let k2 = if k < p { k } else { k + 1 };
            assert(nbs[k2] == bs[k]);
            lemma_sorted_slug_unique(nbs, other, k2);
        } else {
            assert forall|k: int| 0 <= k < nbs.len() implies nbs[k].slug != other by {
                if k < p {
                    assert(nbs[k] == bs[k]);
                } else if k > p {
                    assert(nbs[k] == bs[k - 1]);
                }
            }
        }
    }
}

/// Where slugs ascend, a board with a given slug is the one `board_named` finds.
pub proof fn lemma_sorted_slug_unique(bs: Seq<BoardV>, slug: Seq<char>, k: int)
    requires
        slugs_ascending(bs),
        0 <= k < bs.len(),
        bs[k].slug == slug,
    ensures
        has_slug(bs, slug),
        board_named(bs, slug) == Some(bs[k]),
{
    let c = choose|i: int| 0 <= i < bs.len() && bs[i].slug == slug;
    if c < k {
        assert(text_lt(bs[c].slug, bs[k].slug));
        lemma_text_lt_irreflexive(slug);
    } else if c > k {
        assert(text_lt(bs[k].slug, bs[c].slug));
        lemma_text_lt_irreflexive(slug);
    }
}

/// In boards sorted by slug, the boards before `slug_rank` sort before `slug` and the rest
/// do not.
pub proof fn lemma_slug_rank_sorted(bs: Seq<BoardV>, slug: Seq<char>)
    requires
        slugs_ascending(bs),
    ensures
        slug_rank(bs, slug) <= bs.len(),
        forall|i: int| 0 <= i < slug_rank(bs, slug) ==> text_lt(#[trigger] bs[i].slug, slug),
        forall|i: int| slug_rank(bs, slug) <= i < bs.len() ==> !text_lt(#[trigger] bs[i].slug, slug),
    decreases bs.len(),
{
    if bs.len() > 0 {
        let rest = bs.drop_last();
        lemma_slug_rank_sorted(rest, slug);
        let last = bs.len() - 1;
        if text_lt(bs[last].slug, slug) {
            assert forall|i: int| 0 <= i < slug_rank(bs, slug) implies text_lt(#[trigger] bs[i].slug, slug) by {
                if i < last {
                    lemma_text_lt_transitive(bs[i].slug, bs[last].slug, slug);
                }
            }
            assert forall|i: int| 0 <= i < rest.len() implies text_lt(#[trigger] rest[i].slug, slug) by {
                assert(rest[i] == bs[i]);
                lemma_text_lt_transitive(bs[i].slug, bs[last].slug, slug);
            }
            lemma_rank_all_before(rest, slug);
        } else {
            assert forall|i: int| 0 <= i < slug_rank(bs, slug) implies text_lt(#[trigger] bs[i].slug, slug) by {
                assert(rest[i] == bs[i]);
            }
            assert forall|i: int| slug_rank(bs, slug) <= i < bs.len() implies !text_lt(#[trigger] bs[i].slug, slug) by {
                if i < last {
                    assert(rest[i] == bs[i]);
                }
            }
        }
    }
}

proof fn lemma_rank_all_before(bs: Seq<BoardV>, slug: Seq<char>)
    requires
        forall|i: int| 0 <= i < bs.len() ==> text_lt(#[trigger] bs[i].slug, slug),
    ensures
        slug_rank(bs, slug) == bs.len(),
    decreases bs.len(),
{
    if bs.len() > 0 {
        let rest = bs.drop_last();
        assert forall|i: int| 0 <= i < rest.len() implies text_lt(#[trigger] rest[i].slug, slug) by {
            assert(rest[i] == bs[i]);
        }
        lemma_rank_all_before(rest, slug);
        assert(text_lt(bs[bs.len() - 1].slug, slug));
    }
}

/// Two listings that both meet `is_top` for the same posts, pick, order and limit are the
/// same: the contract pins the listing down.
pub proof fn law_listing_is_unique(
    posts: Seq<PostV>,
    pick: spec_fn(PostV) -> bool,
    order: PostOrder,
    limit: Option<nat>,
    r1: Seq<PostV>,
    r2: Seq<PostV>,
)
    requires
        ids_ascending(posts),
        is_top(posts, pick, order, limit, r1),
        is_top(posts, pick, order, limit, r2),
    ensures
        r1 == r2,
{
    let n = if r1.len() < r2.len() { r1.len() } else { r2.len() };
    lemma_listings_agree(posts, pick, order, limit, r1, r2, n as int);
    if r1.len() < r2.len() {
        lemma_shorter_listing_is_complete(posts, pick, order, limit, r1, r2);
    } else if r2.len() < r1.len() {
        lemma_listings_agree(posts, pick, order, limit, r2, r1, n as int);
        lemma_shorter_listing_is_complete(posts, pick, order, limit, r2, r1);
    }
    assert(r1 =~= r2);
}

proof fn lemma_same_id_same_post(posts: Seq<PostV>, a: PostV, b: PostV)
    requires
        ids_ascending(posts),
        posts.contains(a),
        posts.contains(b),
        a.id == b.id,
    ensures
        a == b,
{
    let i = choose|i: int| 0 <= i < posts.len() && posts[i] == a;
    let j = choose|j: int| 0 <= j < posts.len() && posts[j] == b;
    if i < j {
        assert(posts[i].id < posts[j].id);
    } else if j < i {
        assert(posts[j].id < posts[i].id);
    }
}

proof fn lemma_listings_agree(
    posts: Seq<PostV>,
    pick: spec_fn(PostV) -> bool,
    order: PostOrder,
    limit: Option<nat>,
    r1: Seq<PostV>,
    r2: Seq<PostV>,
    n: int,
)
    requires
        ids_ascending(posts),
        is_top(posts, pick, order, limit, r1),
        is_top(posts, pick, order, limit, r2),
        0 <= n <= r1.len(),
        n <= r2.len(),
    ensures
        forall|i: int| 0 <= i < n ==> r1[i] == r2[i],
    decreases n,
{
    if n > 0 {
        lemma_listings_agree(posts, pick, order, limit, r1, r2, n - 1);
        let i = n - 1;
        let a = r1[i];
        let b = r2[i];
        assert(posts.contains(a) && pick(a));
        assert(posts.contains(b) && pick(b));
        if a != b {
            if a.id == b.id {
                lemma_same_id_same_post(posts, a, b);
            }
            if precedes(order, a, b) {
                lemma_one_way(posts, pick, order, limit, r1, r2, i);
            } else {
                lemma_one_way(posts, pick, order, limit, r2, r1, i);
            }
        }
    }
}

proof fn lemma_one_way(
    posts: Seq<PostV>,
    pick: spec_fn(PostV) -> bool,
    order: PostOrder,
    limit: Option<nat>,
    r1: Seq<PostV>,
    r2: Seq<PostV>,
    i: int,
)
    requires
        is_top(posts, pick, order, limit, r1),
        is_top(posts, pick, order, limit, r2),
        0 <= i < r1.len(),
        i < r2.len(),
        forall|k: int| 0 <= k < i ==> r1[k] == r2[k],
    ensures
        !precedes(order, r1[i], r2[i]),
{
    if precedes(order, r1[i], r2[i]) {
        let a = r1[i];
        assert(posts.contains(a) && pick(a));
        let j = choose|j: int| 0 <= j < posts.len() && posts[j] == a;
        assert(pick(posts[j]) && precedes(order, posts[j], r2[i]));
        assert(r2.contains(posts[j]));
        let m = choose|m: int| 0 <= m < r2.len() && r2[m] == a;
        if m < i {
            assert(r1[m] == a);
            assert(precedes(order, r1[m], r1[i]));
        } else if m > i {
            assert(precedes(order, r2[i], r2[m]));
        }
    }
}

proof fn lemma_shorter_listing_is_complete(
    posts: Seq<PostV>,
    pick: spec_fn(PostV) -> bool,
    order: PostOrder,
    limit: Option<nat>,
    r1: Seq<PostV>,
    r2: Seq<PostV>,
)
    requires
        is_top(posts, pick, order, limit, r1),
        is_top(posts, pick, order, limit, r2),
        r1.len() <= r2.len(),
        forall|k: int| 0 <= k < r1.len() ==> r1[k] == r2[k],
    ensures
        r1.len() == r2.len(),
{
    if r1.len() < r2.len() {
        let n = r1.len() as int;
        let b = r2[n];
        assert(posts.contains(b) && pick(b));
        let j = choose|j: int| 0 <= j < posts.len() && posts[j] == b;
        assert(pick(posts[j]));
        assert(r1.contains(posts[j]));
        let m = choose|m: int| 0 <= m < r1.len() && r1[m] == b;
        assert(r2[m] == b);
        assert(precedes(order, r2[m], r2[n]));
    }
}

/// Escaped text holds none of `<`, `>`, `"` and `'`: what a poster writes cannot open a tag
/// or leave an attribute.
pub proof fn law_escaped_text_has_no_markup(s: Seq<char>)
    ensures
        forall|i: int|
            0 <= i < escape_html(s).len() ==> #[trigger] escape_html(s)[i] != '<' && escape_html(s)[i] != '>'
                && escape_html(s)[i] != '"' && escape_html(s)[i] != '\'',
    decreases s.len(),
{
    if s.len() > 0 {
        law_escaped_text_has_no_markup(s.drop_last());
        let a = escape_html(s.drop_last());
        let b = escape_char(s.last());
        assert forall|i: int| 0 <= i < escape_html(s).len() implies #[trigger] escape_html(s)[i] != '<'
            && escape_html(s)[i] != '>' && escape_html(s)[i] != '"' && escape_html(s)[i] != '\'' by {
            if i < a.len() {
                assert(escape_html(s)[i] == a[i]);
            } else {
                assert(escape_html(s)[i] == b[i - a.len()]);
            }
        }
    }
}

/// The dashboard never counts more threads than posts.
pub proof fn law_threads_never_exceed_posts(s: StoreV)
    ensures
        count_where(s.posts, opening_post()) <= s.posts.len(),
{
    lemma_count_le_len(s.posts, opening_post());
}

/// The listing's page count covers every post and has no empty page at the end.
pub proof fn law_page_count_covers_posts(total: int)
    requires
        total >= 0,
    ensures
        page_count(total) * (POSTS_PER_PAGE as int) >= total,
        total > 0 ==> (page_count(total) - 1) * (POSTS_PER_PAGE as int) < total,
        total == 0 ==> page_count(total) == 0,
{
}

proof fn lemma_new_board_keeps_slugs(s: StoreV, slug: Seq<char>, name: Seq<char>, description: Seq<char>, other: Seq<char>)
    requires
        has_slug(s.boards, other) || other == slug,
        slug_rank(s.boards, slug) <= s.boards.len(),
    ensures
        has_slug(s.with_new_board(slug, name, description).boards, other),
{
    let p = slug_rank(s.boards, slug) as int;
    let nbs = s.with_new_board(slug, name, description).boards;
    if other == slug {
        assert(nbs[p].slug == slug);
    } else {
        let k = choose|k: int| 0 <= k < s.boards.len() && s.boards[k].slug == other;
        if k < p {
            assert(nbs[k] == s.boards[k]);
        } else {
            assert(nbs[k + 1] == s.boards[k]);
        }
    }
}

proof fn lemma_slug_rank_le_len(bs: Seq<BoardV>, slug: Seq<char>)
    ensures
        slug_rank(bs, slug) <= bs.len(),
    decreases bs.len(),
{
    if bs.len() > 0 {
        lemma_slug_rank_le_len(bs.drop_last(), slug);
    }
}

proof fn lemma_seed_step_keeps(s: StoreV, slug: Seq<char>, name: Seq<char>, description: Seq<char>, other: Seq<char>)
    requires
        seed_step(Ok(s), slug, name, description) is Ok,
    ensures
        has_slug(seed_step(Ok(s), slug, name, description)->Ok_0.boards, slug),
        has_slug(s.boards, other) ==> has_slug(seed_step(Ok(s), slug, name, description)->Ok_0.boards, other),
        seed_step(Ok(s), slug, name, description)->Ok_0.last_board_id >= s.last_board_id,
{
    lemma_slug_rank_le_len(s.boards, slug);
    if !has_slug(s.boards, slug) {
        lemma_new_board_keeps_slugs(s, slug, name, description, slug);
        if has_slug(s.boards, other) {
            lemma_new_board_keeps_slugs(s, slug, name, description, other);
        }
    }
}

/// Seeding the default boards a second time changes nothing, while ids are left: where a
/// first `init_db` succeeded and left a board id to hand out, a second one succeeds too and
/// leaves the store as the first left it (`init_db` gives `seeded`'s outcome).
pub proof fn law_seeding_is_idempotent(s: StoreV)
    requires
        seeded(s) is Ok,
        outcome_state(seeded(s)).last_board_id < i64::MAX,
    ensures
        seeded(outcome_state(seeded(s))) == seeded(s),
{
    let r1 = seed_step(Ok(s), RANDOM_SLUG@, RANDOM_NAME@, RANDOM_DESCRIPTION@);
    let r2 = seed_step(r1, TECHNOLOGY_SLUG@, TECHNOLOGY_NAME@, TECHNOLOGY_DESCRIPTION@);
    let r3 = seed_step(r2, VIDEO_GAMES_SLUG@, VIDEO_GAMES_NAME@, VIDEO_GAMES_DESCRIPTION@);
    let r4 = seed_step(r3, ANIME_SLUG@, ANIME_NAME@, ANIME_DESCRIPTION@);
    let r5 = seed_step(r4, POLITICS_SLUG@, POLITICS_NAME@, POLITICS_DESCRIPTION@);
    assert(r5 == seeded(s));
    assert(r1 is Ok && r2 is Ok && r3 is Ok && r4 is Ok);
    let s1 = r1->Ok_0;
    let s2 = r2->Ok_0;
    let s3 = r3->Ok_0;
    let s4 = r4->Ok_0;
    let s5 = r5->Ok_0;
    lemma_seed_step_keeps(s, RANDOM_SLUG@, RANDOM_NAME@, RANDOM_DESCRIPTION@, RANDOM_SLUG@);
    lemma_seed_step_keeps(s1, TECHNOLOGY_SLUG@, TECHNOLOGY_NAME@, TECHNOLOGY_DESCRIPTION@, RANDOM_SLUG@);
    lemma_seed_step_keeps(s2, VIDEO_GAMES_SLUG@, VIDEO_GAMES_NAME@, VIDEO_GAMES_DESCRIPTION@, RANDOM_SLUG@);
    lemma_seed_step_keeps(s2, VIDEO_GAMES_SLUG@, VIDEO_GAMES_NAME@, VIDEO_GAMES_DESCRIPTION@, TECHNOLOGY_SLUG@);
    lemma_seed_step_keeps(s3, ANIME_SLUG@, ANIME_NAME@, ANIME_DESCRIPTION@, RANDOM_SLUG@);
    lemma_seed_step_keeps(s3, ANIME_SLUG@, ANIME_NAME@, ANIME_DESCRIPTION@, TECHNOLOGY_SLUG@);
    lemma_seed_step_keeps(s3, ANIME_SLUG@, ANIME_NAME@, ANIME_DESCRIPTION@, VIDEO_GAMES_SLUG@);
    lemma_seed_step_keeps(s4, POLITICS_SLUG@, POLITICS_NAME@, POLITICS_DESCRIPTION@, RANDOM_SLUG@);
    lemma_seed_step_keeps(s4, POLITICS_SLUG@, POLITICS_NAME@, POLITICS_DESCRIPTION@, TECHNOLOGY_SLUG@);
    lemma_seed_step_keeps(s4, POLITICS_SLUG@, POLITICS_NAME@, POLITICS_DESCRIPTION@, VIDEO_GAMES_SLUG@);
    lemma_seed_step_keeps(s4, POLITICS_SLUG@, POLITICS_NAME@, POLITICS_DESCRIPTION@, ANIME_SLUG@);
    lemma_seed_step_keeps(s1, TECHNOLOGY_SLUG@, TECHNOLOGY_NAME@, TECHNOLOGY_DESCRIPTION@, TECHNOLOGY_SLUG@);
    lemma_seed_step_keeps(s2, VIDEO_GAMES_SLUG@, VIDEO_GAMES_NAME@, VIDEO_GAMES_DESCRIPTION@, VIDEO_GAMES_SLUG@);
    lemma_seed_step_keeps(s3, ANIME_SLUG@, ANIME_NAME@, ANIME_DESCRIPTION@, ANIME_SLUG@);
    lemma_seed_step_keeps(s4, POLITICS_SLUG@, POLITICS_NAME@, POLITICS_DESCRIPTION@, POLITICS_SLUG@);
    assert(seed_step(Ok(s5), RANDOM_SLUG@, RANDOM_NAME@, RANDOM_DESCRIPTION@) == Ok::<StoreV, StoreV>(s5));
    assert(seed_step(Ok(s5), TECHNOLOGY_SLUG@, TECHNOLOGY_NAME@, TECHNOLOGY_DESCRIPTION@) == Ok::<StoreV, StoreV>(s5));
    assert(seed_step(Ok(s5), VIDEO_GAMES_SLUG@, VIDEO_GAMES_NAME@, VIDEO_GAMES_DESCRIPTION@) == Ok::<StoreV, StoreV>(s5));
    assert(seed_step(Ok(s5), ANIME_SLUG@, ANIME_NAME@, ANIME_DESCRIPTION@) == Ok::<StoreV, StoreV>(s5));
    assert(seed_step(Ok(s5), POLITICS_SLUG@, POLITICS_NAME@, POLITICS_DESCRIPTION@) == Ok::<StoreV, StoreV>(s5));
}

proof fn lemma_crlf_keeps_no_char(s: Seq<char>, x: char)
    requires
        forall|i: int| 0 <= i < s.len() ==> s[i] != x,
    ensures
        forall|i: int| 0 <= i < crlf_to_lf(s).len() ==> crlf_to_lf(s)[i] != x,
    decreases s.len(),
{
    if s.len() > 0 {
        if s.len() >= 2 && s[0] == '\r' && s[1] == '\n' {
            let rest = s.skip(2);
            assert forall|i: int| 0 <= i < rest.len() implies rest[i] != x by {
                assert(rest[i] == s[i + 2]);
            }
            lemma_crlf_keeps_no_char(rest, x);
            let r = crlf_to_lf(s);
            assert forall|i: int| 0 <= i < r.len() implies r[i] != x by {
                if i > 0 {
                    assert(r[i] == crlf_to_lf(rest)[i - 1]);
                }
            }
        } else {
            let rest = s.skip(1);
            assert forall|i: int| 0 <= i < rest.len() implies rest[i] != x by {
                assert(rest[i] == s[i + 1]);
            }
            lemma_crlf_keeps_no_char(rest, x);
            let r = crlf_to_lf(s);
            assert forall|i: int| 0 <= i < r.len() implies r[i] != x by {
                if i > 0 {
                    assert(r[i] == crlf_to_lf(rest)[i - 1]);
                }
            }
        }
    }
}

proof fn lemma_lines_keep_no_gt(s: Seq<char>)
    requires
        forall|i: int| 0 <= i < s.len() ==> s[i] != '>',
    ensures
        forall|k: int, j: int|
            0 <= k < split_lines(s).len() && 0 <= j < split_lines(s)[k].len() ==> #[trigger] split_lines(s)[k][j] != '>',
        split_lines(s).len() >= 1,
    decreases s.len(),
{
    if s.len() > 0 {
        let d = s.drop_last();
        assert forall|i: int| 0 <= i < d.len() implies d[i] != '>' by {
            assert(d[i] == s[i]);
        }
        lemma_lines_keep_no_gt(d);
        let rest = split_lines(d);
        let ls = split_lines(s);
        assert(s.last() == s[s.len() - 1]);
        assert forall|k: int, j: int| 0 <= k < ls.len() && 0 <= j < ls[k].len() implies #[trigger] ls[k][j] != '>' by {
            if s.last() == '\n' {
                if k < rest.len() {
                    assert(ls[k] == rest[k]);
                }
            } else {
                if k < rest.len() - 1 {
                    assert(ls[k] == rest[k]);
                } else {
                    assert(ls[k] == rest.last().push(s.last()));
                    if j < rest.last().len() {
                        assert(ls[k][j] == rest[rest.len() - 1][j]);
                    }
                }
            }
        }
    }
}

/// A post's content never shows as greentext: escaping turns every `>` into `&gt;`, so no
/// line starts with `>`, and the HTML is the lines joined by `<br>`.
pub proof fn law_no_greentext_after_escaping(content: Seq<char>)
    ensures
        content_lines_html(content) == join_with(split_lines(crlf_to_lf(escape_html(content))), line_break()),
{
    let e = escape_html(content);
    lemma_escaped_has_no_gt(content);
    lemma_crlf_keeps_no_char(e, '>');
    let c = crlf_to_lf(e);
    lemma_lines_keep_no_gt(c);
    let ls = split_lines(c);
    assert forall|k: int| 0 <= k < ls.len() implies greentext(ls[k]) == ls[k] by {
        if ls[k].len() > 0 {
            assert(ls[k][0] != '>');
        }
    }
    assert(ls.map_values(|l: Seq<char>| greentext(l)) =~= ls);
}

/// Every post names an existing board, and every reply names an existing post.
pub open spec fn references_sound(s: StoreV) -> bool {
    forall|i: int|
        0 <= i < s.posts.len() ==> {
            &&& has_slug(s.boards, #[trigger] s.posts[i].board_slug)
            &&& match s.posts[i].thread_id {
                Some(t) => has_post(s.posts, t),
                None => true,
            }
        }
}

/// A new post whose references hold keeps the references sound.
pub proof fn law_new_post_keeps_references(
    s: StoreV,
    board_slug: Seq<char>,
    thread_id: Option<i64>,
    author_id: Seq<char>,
    content: Seq<char>,
    image_path: Option<Seq<char>>,
    image_name: Option<Seq<char>>,
    now: Timestamp,
)
    requires
        s.well_formed(),
        s.last_post_id < i64::MAX,
        references_sound(s),
        new_post_references_hold(s, board_slug, thread_id),
    ensures
        references_sound(s.with_new_post(board_slug, thread_id, author_id, content, image_path, image_name, now)),
{
    let t = s.with_new_post(board_slug, thread_id, author_id, content, image_path, image_name, now);
    let n = s.posts.len() as int;
    let earlier = match thread_id {
        Some(x) => bumped_posts(s.posts, x, now),
        None => s.posts,
    };
    assert(forall|i: int| 0 <= i < n ==> #[trigger] t.posts[i] == earlier[i]);
    assert(forall|i: int| 0 <= i < n ==> #[trigger] earlier[i].id == s.posts[i].id && earlier[i].board_slug
        == s.posts[i].board_slug && earlier[i].thread_id == s.posts[i].thread_id);
    assert forall|x: i64| has_post(s.posts, x) implies has_post(t.posts, x) by {
        let k = choose|k: int| 0 <= k < s.posts.len() && s.posts[k].id == x;
        assert(t.posts[k].id == x);
    }
    assert(has_post(t.posts, t.posts[n].id));
    assert forall|i: int| 0 <= i < t.posts.len() implies {
        &&& has_slug(t.boards, #[trigger] t.posts[i].board_slug)
        &&& match t.posts[i].thread_id {
            Some(x) => has_post(t.posts, x),
            None => true,
        }
    } by {
        if i < n {
            assert(t.posts[i].board_slug == s.posts[i].board_slug);
            assert(t.posts[i].thread_id == s.posts[i].thread_id);
        }
    }
}

/// A removal that keeps the references (the condition under which deleting posts or a board
/// succeeds) leaves them sound.
pub proof fn law_removal_keeps_references(s: StoreV, removed: spec_fn(PostV) -> bool, boards: Seq<BoardV>)
    requires
        references_sound(s),
        removal_keeps_references(s.posts, removed),
        forall|i: int|
            0 <= i < s.posts.len() && !removed(#[trigger] s.posts[i]) ==> has_slug(boards, s.posts[i].board_slug),
    ensures
        references_sound(s.with_posts(keep_where(s.posts, not_picked(removed))).with_boards(boards)),
{
    let k = keep_where(s.posts, not_picked(removed));
    lemma_keep_where_sound(s.posts, not_picked(removed));
    lemma_keep_where_complete(s.posts, not_picked(removed));
    let t = s.with_posts(k).with_boards(boards);
    assert forall|i: int| 0 <= i < k.len() implies {
        &&& has_slug(boards, #[trigger] k[i].board_slug)
        &&& match k[i].thread_id {
            Some(x) => has_post(k, x),
            None => true,
        }
    } by {
        assert((not_picked(removed))(k[i]));
        let a = choose|a: int| 0 <= a < s.posts.len() && s.posts[a] == k[i];
        assert(!removed(s.posts[a]));
        match k[i].thread_id {
            Some(x) => {
                assert(has_post(s.posts, x));
                let b = choose|b: int| 0 <= b < s.posts.len() && s.posts[b].id == x;
                assert(!removed(s.posts[b]));
                assert((not_picked(removed))(s.posts[b]));
                assert(k.contains(s.posts[b]));
                let c = choose|c: int| 0 <= c < k.len() && k[c] == s.posts[b];
                assert(k[c].id == x);
            },
            None => {},
        }
    }
}

/// Deleting a post and its replies, where that succeeds, keeps the references sound.
pub proof fn law_delete_post_keeps_references(s: StoreV, id: i64)
    requires
        references_sound(s),
        removal_keeps_references(s.posts, in_thread(id)),
    ensures
        references_sound(s.with_posts(keep_where(s.posts, not_picked(in_thread(id))))),
{
    law_removal_keeps_references(s, in_thread(id), s.boards);
    assert(s.with_posts(keep_where(s.posts, not_picked(in_thread(id)))).with_boards(s.boards)
        == s.with_posts(keep_where(s.posts, not_picked(in_thread(id)))));
}

/// Deleting a board and its posts, where that succeeds, keeps the references sound.
pub proof fn law_delete_board_keeps_references(s: StoreV, slug: Seq<char>)
    requires
        references_sound(s),
        removal_keeps_references(s.posts, on_board(slug)),
    ensures
        references_sound(
            s.with_posts(keep_where(s.posts, not_picked(on_board(slug)))).with_boards(
                keep_where(s.boards, slug_is_not(slug)),
            ),
        ),
{
    let kb = keep_where(s.boards, slug_is_not(slug));
    lemma_keep_where_complete(s.boards, slug_is_not(slug));
    assert forall|i: int| 0 <= i < s.posts.len() && !(on_board(slug))(#[trigger] s.posts[i]) implies has_slug(
        kb,
        s.posts[i].board_slug,
    ) by {
        let b = choose|b: int| 0 <= b < s.boards.len() && s.boards[b].slug == s.posts[i].board_slug;
        assert((slug_is_not(slug))(s.boards[b]));
        assert(kb.contains(s.boards[b]));
        let c = choose|c: int| 0 <= c < kb.len() && kb[c] == s.boards[b];
        assert(kb[c].slug == s.posts[i].board_slug);
    }
    law_removal_keeps_references(s, on_board(slug), kb);
}

/// Moving a thread to an existing board keeps the references sound.
pub proof fn law_move_thread_keeps_references(s: StoreV, id: i64, slug: Seq<char>)
    requires
        references_sound(s),
        has_slug(s.boards, slug),
    ensures
        references_sound(s.with_posts(moved_posts(s.posts, id, slug))),
{
    let m = moved_posts(s.posts, id, slug);
    assert forall|x: i64| has_post(s.posts, x) implies has_post(m, x) by {
        let k = choose|k: int| 0 <= k < s.posts.len() && s.posts[k].id == x;
        assert(m[k].id == x);
    }
    assert forall|i: int| 0 <= i < m.len() implies {
        &&& has_slug(s.boards, #[trigger] m[i].board_slug)
        &&& match m[i].thread_id {
            Some(x) => has_post(m, x),
            None => true,
        }
    } by {
        assert(m[i].thread_id == s.posts[i].thread_id);
        assert(has_slug(s.boards, s.posts[i].board_slug));
        match s.posts[i].thread_id {
            Some(x) => assert(has_post(s.posts, x)),
            None => {},
        }
    }
}

/// Locking a post keeps the references sound.
pub proof fn law_lock_keeps_references(s: StoreV, id: i64)
    requires
        references_sound(s),
    ensures
        references_sound(s.with_posts(locked_posts(s.posts, id))),
{
    let m = locked_posts(s.posts, id);
    assert forall|x: i64| has_post(s.posts, x) implies has_post(m, x) by {
        let k = choose|k: int| 0 <= k < s.posts.len() && s.posts[k].id == x;
        assert(m[k].id == x);
    }
    assert forall|i: int| 0 <= i < m.len() implies {
        &&& has_slug(s.boards, #[trigger] m[i].board_slug)
        &&& match m[i].thread_id {
            Some(x) => has_post(m, x),
            None => true,
        }
    } by {
        assert(m[i].board_slug == s.posts[i].board_slug);
        assert(m[i].thread_id == s.posts[i].thread_id);
    }
}

/// Creating or renaming a board keeps the references sound.
pub proof fn law_board_changes_keep_references(s: StoreV, slug: Seq<char>, name: Seq<char>, description: Seq<char>)
    requires
        s.well_formed(),
        references_sound(s),
    ensures
        references_sound(s.with_boards(renamed_boards(s.boards, slug, name, description))),
        s.last_board_id < i64::MAX && !has_slug(s.boards, slug) ==> references_sound(
            s.with_new_board(slug, name, description),
        ),
{
    let rb = renamed_boards(s.boards, slug, name, description);
    assert forall|x: Seq<char>| has_slug(s.boards, x) implies has_slug(rb, x) by {
        let k = choose|k: int| 0 <= k < s.boards.len() && s.boards[k].slug == x;
        assert(rb[k].slug == x);
    }
    if s.last_board_id < i64::MAX && !has_slug(s.boards, slug) {
        lemma_slug_rank_le_len(s.boards, slug);
        assert forall|x: Seq<char>| has_slug(s.boards, x) implies has_slug(s.with_new_board(slug, name, description).boards, x) by {
            lemma_new_board_keeps_slugs(s, slug, name, description, x);
        }
    }
}

// ---------------------------------------------------------------- escaping round trip

/// What a one-pass decoder of the five escapes gives back: reading left to right, each
/// `&amp;`, `&lt;`, `&gt;`, `&quot;` and `&#39;` becomes `&`, `<`, `>`, `"` and `'`; every
/// other char stays.
pub open spec fn unescape_html(t: Seq<char>) -> Seq<char>
    decreases t.len(),
{
    if t.len() == 0 {
        Seq::empty()
    } else if t.len() >= 5 && t.take(5) == seq!['&', 'a', 'm', 'p', ';'] {
        seq!['&'] + unescape_html(t.skip(5))
    } else if t.len() >= 4 && t.take(4) == seq!['&', 'l', 't', ';'] {
        seq!['<'] + unescape_html(t.skip(4))
    } else if t.len() >= 4 && t.take(4) == seq!['&', 'g', 't', ';'] {
        seq!['>'] + unescape_html(t.skip(4))
    } else if t.len() >= 6 && t.take(6) == seq!['&', 'q', 'u', 'o', 't', ';'] {
        seq!['"'] + unescape_html(t.skip(6))
    } else if t.len() >= 5 && t.take(5) == seq!['&', '#', '3', '9', ';'] {
        seq!['\''] + unescape_html(t.skip(5))
    } else {
        seq![t[0]] + unescape_html(t.skip(1))
    }
}

/// Escaping text made of two parts escapes each part.
pub proof fn lemma_escape_html_append(a: Seq<char>, b: Seq<char>)
    ensures
        escape_html(a + b) == escape_html(a) + escape_html(b),
    decreases b.len(),
{
    if b.len() == 0 {
        assert(a + b =~= a);
        assert(escape_html(a) + escape_html(b) =~= escape_html(a));
    } else {
        lemma_escape_html_append(a, b.drop_last());
        assert((a + b).drop_last() =~= a + b.drop_last());
        assert((a + b).last() == b.last());
        assert(escape_html(a + b) =~= escape_html(a) + escape_html(b));
    }
}

/// Escaped text starts with the escape of its first char.
proof fn lemma_escape_html_first(s: Seq<char>)
    requires
        s.len() > 0,
    ensures
        escape_html(s) == escape_char(s[0]) + escape_html(s.drop_first()),
{
    let head = seq![s[0]];
    assert(s =~= head + s.drop_first());
    lemma_escape_html_append(head, s.drop_first());
    assert(head.drop_last() =~= Seq::<char>::empty());
    assert(head.last() == s[0]);
    assert(escape_html(head.drop_last()) == Seq::<char>::empty());
    assert(escape_html(head) == escape_html(head.drop_last()) + escape_char(head.last()));
    assert(escape_html(head) =~= escape_char(s[0]));
}

/// Decoding the escape of `c` followed by `rest` gives `c`, then what `rest` decodes to.
proof fn lemma_unescape_step(c: char, rest: Seq<char>)
    ensures
        unescape_html(escape_char(c) + rest) == seq![c] + unescape_html(rest),
{
    let e = escape_char(c);
    let t = e + rest;
    assert(t.skip(e.len() as int) =~= rest);
    assert(t.take(e.len() as int) =~= e);
    assert(t[0] == e[0]);
    if e.len() >= 2 {
        assert(t[1] == e[1]);
    }
    if e.len() >= 3 {
        assert(t[2] == e[2]);
    }
    if t.len() >= 4 {
        assert(t.take(4)[0] == t[0]);
        assert(t.take(4)[1] == t[1]);
        assert(t.take(4)[2] == t[2]);
    }
    if t.len() >= 5 {
        assert(t.take(5)[0] == t[0]);
        assert(t.take(5)[1] == t[1]);
        assert(t.take(5)[2] == t[2]);
    }
    if t.len() >= 6 {
        assert(t.take(6)[0] == t[0]);
        assert(t.take(6)[1] == t[1]);
    }
}

/// Decoding escaped text gives the text back.
pub proof fn law_escaping_round_trip(s: Seq<char>)
    ensures
        unescape_html(escape_html(s)) == s,
    decreases s.len(),
{
    if s.len() > 0 {
        lemma_escape_html_first(s);
        lemma_unescape_step(s[0], escape_html(s.drop_first()));
        law_escaping_round_trip(s.drop_first());
        assert(seq![s[0]] + s.drop_first() =~= s);
    }
}

/// Different texts are escaped differently.
pub proof fn law_escaping_is_injective(s1: Seq<char>, s2: Seq<char>)
    requires
        escape_html(s1) == escape_html(s2),
    ensures
        s1 == s2,
{
    law_escaping_round_trip(s1);
    law_escaping_round_trip(s2);
}

// ---------------------------------------------------------------- moderators' sessions

/// A token with no `;` and no space, so that it stands whole as a cookie's value.
pub open spec fn plain_token(t: Seq<char>) -> bool {
    forall|k: int| 0 <= k < t.len() ==> #[trigger] t[k] != ';' && t[k] != ' '
}

/// The value of a cookie whose text has no `;` is all of it.
proof fn lemma_cookie_value_plain(t: Seq<char>)
    requires
        plain_token(t),
    ensures
        cookie_value(t) == t,
    decreases t.len(),
{
    if t.len() > 0 {
        assert(plain_token(t.drop_first())) by {
            assert forall|k: int| 0 <= k < t.drop_first().len() implies #[trigger] t.drop_first()[k] != ';'
                && t.drop_first()[k] != ' ' by {
                assert(t.drop_first()[k] == t[k + 1]);
            }
        }
        lemma_cookie_value_plain(t.drop_first());
        assert(t[0] != ';');
        assert(seq![t[0]] + t.drop_first() =~= t);
    }
}

/// The tokens a login hands out are plain.
pub proof fn lemma_uuid_token_is_plain(t: Seq<char>)
    requires
        is_uuid_text(t),
    ensures
        plain_token(t),
{
    assert forall|k: int| 0 <= k < t.len() implies #[trigger] t[k] != ';' && t[k] != ' ' by {
        assert(is_uuid_text(t));
    }
}

/// A request whose Cookie header is the session cookie with a token that was handed out is a
/// moderator's.
pub proof fn law_handed_out_session_is_accepted(sessions: Seq<Seq<char>>, token: Seq<char>)
    requires
        sessions.contains(token),
        plain_token(token),
    ensures
        holds_session(SESSION_COOKIE_KEY@ + token, sessions),
{
    let key = SESSION_COOKIE_KEY@;
    let c = key + token;
    assert(c.subrange(0, key.len() as int) =~= key);
    assert(c.skip(key.len() as int) =~= token);
    lemma_cookie_value_plain(token);
    assert(session_cookie_at(c, 0, sessions));
}

/// A request whose Cookie header is the session cookie with a token that no login handed
/// out is not a moderator's: a forged cookie lets nobody in.
pub proof fn law_forged_session_is_refused(sessions: Seq<Seq<char>>, token: Seq<char>)
    requires
        !sessions.contains(token),
        plain_token(token),
    ensures
        !holds_session(SESSION_COOKIE_KEY@ + token, sessions),
{
    reveal_strlit("admin_session=");
    let key = SESSION_COOKIE_KEY@;
    let c = key + token;
    assert forall|i: int| !#[trigger] session_cookie_at(c, i, sessions) by {
        if i == 0 {
            assert(c.skip(key.len() as int) =~= token);
            lemma_cookie_value_plain(token);
        } else if 0 < i <= c.len() {
            if i - 1 < key.len() {
                assert(c[i - 1] == key[i - 1]);
            } else {
                assert(c[i - 1] == token[i - 1 - key.len()]);
            }
        }
    }
}

/// After a login hands out `token`, the cookie it sets is the session cookie with that token
/// (then its attributes), and a request that sends that cookie back is a moderator's.
pub proof fn law_login_session_is_accepted(s: StoreV, token: Seq<char>)
    requires
        is_uuid_text(token),
    ensures
        session_cookie(token) == (SESSION_COOKIE_KEY@ + token) + SESSION_COOKIE_ATTRIBUTES@,
        holds_session(SESSION_COOKIE_KEY@ + token, s.with_session(token).sessions),
{
    lemma_uuid_token_is_plain(token);
    assert(s.with_session(token).sessions.last() == token);
    assert(s.with_session(token).sessions.contains(token));
    law_handed_out_session_is_accepted(s.with_session(token).sessions, token);
}

// ---------------------------------------------------------------- line breaks

/// Text with each newline shown as `<br>`.
pub open spec fn newlines_as_breaks(s: Seq<char>) -> Seq<char>
    decreases s.len(),
{
    if s.len() == 0 {
        Seq::empty()
    } else if s.last() == '\n' {
        newlines_as_breaks(s.drop_last()) + line_break()
    } else {
        newlines_as_breaks(s.drop_last()).push(s.last())
    }
}

/// Lines joined with `<br>` are the text with each newline shown as `<br>`.
proof fn lemma_joined_lines_are_breaks(s: Seq<char>)
    ensures
        join_with(split_lines(s), line_break()) == newlines_as_breaks(s),
        split_lines(s).len() >= 1,
    decreases s.len(),
{
    if s.len() > 0 {
        let d = s.drop_last();
        lemma_joined_lines_are_breaks(d);
        let ls = split_lines(d);
        let n = ls.len();
        let br = line_break();
        if s.last() == '\n' {
            let ls2 = ls.push(Seq::<char>::empty());
            assert(split_lines(s) == ls2);
            assert(ls2.drop_last() =~= ls);
            assert(join_with(ls2, br) == join_with(ls, br) + br + ls2.last());
            assert(join_with(ls2, br) =~= newlines_as_breaks(s));
        } else {
            let ls2 = ls.update(n - 1, ls.last().push(s.last()));
            assert(split_lines(s) == ls2);
            if n == 1 {
                assert(join_with(ls2, br) == ls2[0]);
                assert(join_with(ls, br) == ls[0]);
                assert(join_with(ls2, br) =~= newlines_as_breaks(s));
            } else {
                assert(ls2.drop_last() =~= ls.drop_last());
                assert(ls2.last() == ls.last().push(s.last()));
                assert(join_with(ls2, br) == join_with(ls2.drop_last(), br) + br + ls2.last());
                assert(join_with(ls, br) == join_with(ls.drop_last(), br) + br + ls.last());
                assert(join_with(ls2, br) =~= join_with(ls, br).push(s.last()));
            }
        }
    }
}

/// Where the text has no `<`, every `<` of it with newlines shown as `<br>` opens a `<br>`.
proof fn lemma_breaks_are_the_only_tags(s: Seq<char>)
    requires
        forall|i: int| 0 <= i < s.len() ==> s[i] != '<',
    ensures
        forall|i: int|
            0 <= i < newlines_as_breaks(s).len() && #[trigger] newlines_as_breaks(s)[i] == '<' ==> i + 4
                <= newlines_as_breaks(s).len() && newlines_as_breaks(s).subrange(i, i + 4) == line_break(),
    decreases s.len(),
{
    if s.len() > 0 {
        let d = s.drop_last();
        assert forall|i: int| 0 <= i < d.len() implies d[i] != '<' by {
            assert(d[i] == s[i]);
        }
        lemma_breaks_are_the_only_tags(d);
        let a = newlines_as_breaks(d);
        let r = newlines_as_breaks(s);
        assert(s.last() == s[s.len() - 1]);
        assert forall|i: int| 0 <= i < r.len() && #[trigger] r[i] == '<' implies i + 4 <= r.len() && r.subrange(i, i + 4)
            == line_break() by {
            if i < a.len() {
                assert(r[i] == a[i]);
                assert(r.subrange(i, i + 4) =~= a.subrange(i, i + 4));
            } else if s.last() == '\n' {
                assert(r[i] == line_break()[i - a.len()]);
                assert(i == a.len());
                assert(r.subrange(i, i + 4) =~= line_break());
            } else {
                assert(r[i] == s.last());
            }
        }
    }
}

/// A post's text is shown as its escaped text with each newline (once each `\r\n` is a
/// `\n`) turned into `<br>`: one `<br>` per line break, and every `<` in it opens a `<br>`,
/// so the poster's own text brings no markup.
pub proof fn law_content_html_is_escaped_text_with_breaks(content: Seq<char>)
    ensures
        content_lines_html(content) == newlines_as_breaks(crlf_to_lf(escape_html(content))),
        forall|i: int|
            0 <= i < content_lines_html(content).len() && #[trigger] content_lines_html(content)[i] == '<' ==> i + 4
                <= content_lines_html(content).len() && content_lines_html(content).subrange(i, i + 4)
                == line_break(),
{
    let e = escape_html(content);
    let c = crlf_to_lf(e);
    law_no_greentext_after_escaping(content);
    lemma_joined_lines_are_breaks(c);
    law_escaped_text_has_no_markup(content);
    assert forall|i: int| 0 <= i < e.len() implies e[i] != '<' by {
        assert(e[i] != '<');
    }
    lemma_crlf_keeps_no_char(e, '<');
    lemma_breaks_are_the_only_tags(c);
}

// ---------------------------------------------------------------- locking

/// Locking post `id` puts `[LOCKED] ` before the content of that post only: every other post,
/// replies to it included, keeps its content; no post changes anything but its content, and
/// the rest of the store stays as it was.
pub proof fn law_lock_changes_only_that_post(s: StoreV, id: i64)
    ensures
        ({
            let t = s.with_posts(locked_posts(s.posts, id));
            &&& t.boards == s.boards
            &&& t.last_board_id == s.last_board_id
            &&& t.last_post_id == s.last_post_id
            &&& t.sessions == s.sessions
            &&& t.posts.len() == s.posts.len()
            &&& forall|i: int|
                0 <= i < s.posts.len() ==> (#[trigger] t.posts[i]) == PostV { content: t.posts[i].content, ..s.posts[i] }
            &&& forall|i: int|
                0 <= i < s.posts.len() && s.posts[i].id != id ==> (#[trigger] t.posts[i]).content == s.posts[i].content
            &&& forall|i: int|
                0 <= i < s.posts.len() && s.posts[i].id == id ==> (#[trigger] t.posts[i]).content == "[LOCKED] "@
                    + s.posts[i].content
        }),
{
    reveal_strlit("[LOCKED] ");
    assert("[LOCKED] "@ =~= locked_prefix());
}

// ---------------------------------------------------------------- listing order in time

/// On a board page threads come most recently bumped first: bump times are compared by their
/// seconds, and by their nanoseconds only within the same second; of two threads bumped at
/// the same moment, the older (smaller id) comes first.
pub proof fn law_board_page_lists_later_bumps_first(a: PostV, b: PostV)
    ensures
        precedes(PostOrder::BumpedFirst, a, b) <==> (a.bump_time.secs > b.bump_time.secs || (a.bump_time.secs
            == b.bump_time.secs && a.bump_time.nanos > b.bump_time.nanos) || (a.bump_time.secs == b.bump_time.secs
            && a.bump_time.nanos == b.bump_time.nanos && a.id < b.id)),
{
}

/// On a thread page replies come oldest first: creation times are compared by their seconds,
/// and by their nanoseconds only within the same second; of two replies made at the same
/// moment, the one with the smaller id comes first.
pub proof fn law_thread_page_lists_earlier_replies_first(a: PostV, b: PostV)
    ensures
        precedes(PostOrder::OldestFirst, a, b) <==> (a.created_at.secs < b.created_at.secs || (a.created_at.secs
            == b.created_at.secs && a.created_at.nanos < b.created_at.nanos) || (a.created_at.secs
            == b.created_at.secs && a.created_at.nanos == b.created_at.nanos && a.id < b.id)),
{
}

/// In the moderators' listing and in a board page's reply previews, posts come newest first:
/// creation times are compared by their seconds, and by their nanoseconds only within the same
/// second; of two posts made at the same moment, the one with the smaller id comes first.
pub proof fn law_newest_first_lists_later_posts_first(a: PostV, b: PostV)
    ensures
        precedes(PostOrder::NewestFirst, a, b) <==> (a.created_at.secs > b.created_at.secs || (a.created_at.secs
            == b.created_at.secs && a.created_at.nanos > b.created_at.nanos) || (a.created_at.secs
            == b.created_at.secs && a.created_at.nanos == b.created_at.nanos && a.id < b.id)),
{
}

/// A listing in the board page's order never puts a thread before one that was bumped later
/// in time, and a listing in the thread page's order never puts a reply before one that was
/// made earlier in time (seconds first, nanoseconds within the same second).
pub proof fn law_listings_follow_time(
    posts: Seq<PostV>,
    pick: spec_fn(PostV) -> bool,
    order: PostOrder,
    limit: Option<nat>,
    r: Seq<PostV>,
)
    requires
        is_top(posts, pick, order, limit, r),
    ensures
        order == PostOrder::BumpedFirst ==> forall|i: int, j: int|
            0 <= i < j < r.len() ==> (#[trigger] r[i]).bump_time.secs > (#[trigger] r[j]).bump_time.secs || (
            r[i].bump_time.secs == r[j].bump_time.secs && r[i].bump_time.nanos >= r[j].bump_time.nanos),
        order == PostOrder::OldestFirst ==> forall|i: int, j: int|
            0 <= i < j < r.len() ==> (#[trigger] r[i]).created_at.secs < (#[trigger] r[j]).created_at.secs || (
            r[i].created_at.secs == r[j].created_at.secs && r[i].created_at.nanos <= r[j].created_at.nanos),
        order == PostOrder::NewestFirst ==> forall|i: int, j: int|
            0 <= i < j < r.len() ==> (#[trigger] r[i]).created_at.secs > (#[trigger] r[j]).created_at.secs || (
            r[i].created_at.secs == r[j].created_at.secs && r[i].created_at.nanos >= r[j].created_at.nanos),
{
    assert forall|i: int, j: int| 0 <= i < j < r.len() implies precedes(order, #[trigger] r[i], #[trigger] r[j]) by {}
}

// ---------------------------------------------------------------- the default boards

/// After the store went from `before` to `after`, the board `slug` is as seeding leaves it: where
/// it was missing it is there with this name and description, and where it was there it is
/// as it was.
pub open spec fn seeded_as(before: StoreV, after: StoreV, slug: Seq<char>, name: Seq<char>, description: Seq<char>) -> bool {
    match board_named(before.boards, slug) {
        None => match board_named(after.boards, slug) {
            Some(b) => b.slug == slug && b.name == name && b.description == description,
            None => false,
        },
        Some(b) => board_named(after.boards, slug) == Some(b),
    }
}

/// One successful seeding step adds the board as `seeded_as` says and finds every other slug
/// as before.
proof fn lemma_seed_step_names(s: StoreV, slug: Seq<char>, name: Seq<char>, description: Seq<char>)
    requires
        s.well_formed(),
        seed_step(Ok(s), slug, name, description) is Ok,
    ensures
        ({
            let t = seed_step(Ok(s), slug, name, description)->Ok_0;
            &&& t.well_formed()
            &&& seeded_as(s, t, slug, name, description)
            &&& forall|other: Seq<char>|
                other != slug ==> #[trigger] board_named(t.boards, other) == board_named(s.boards, other)
        }),
{
    if !has_slug(s.boards, slug) {
        law_created_board_is_found(s, slug, name, description, slug);
        assert forall|other: Seq<char>| other != slug implies #[trigger] board_named(
            s.with_new_board(slug, name, description).boards,
            other,
        ) == board_named(s.boards, other) by {
            law_created_board_is_found(s, slug, name, description, other);
        }
    }
}

/// Seeding that succeeds leaves each default board as its listing says: a missing one is
/// added with the name and description listed for its slug (`b` Random, `g` Technology,
/// `v` Video Games, `a` Anime & Manga, `pol` Politics), and one that was there is kept.
pub proof fn law_seeded_boards_have_their_names(s: StoreV)
    requires
        s.well_formed(),
        seeded(s) is Ok,
    ensures
        ({
            let t = seeded(s)->Ok_0;
            &&& t.well_formed()
            &&& seeded_as(s, t, "b"@, "Random"@,
                "The stories and information posted here are artistic works of fiction and falsehood."@)
            &&& seeded_as(s, t, "g"@, "Technology"@, "Install Gentoo"@)
            &&& seeded_as(s, t, "v"@, "Video Games"@, "vidya gaems"@)
            &&& seeded_as(s, t, "a"@, "Anime & Manga"@, "Discuss Chinese cartoons"@)
            &&& seeded_as(s, t, "pol"@, "Politics"@, "Political discussion"@)
        }),
{
    reveal_strlit("b");
    reveal_strlit("g");
    reveal_strlit("v");
    reveal_strlit("a");
    reveal_strlit("pol");
    let r1 = seed_step(Ok(s), RANDOM_SLUG@, RANDOM_NAME@, RANDOM_DESCRIPTION@);
    let r2 = seed_step(r1, TECHNOLOGY_SLUG@, TECHNOLOGY_NAME@, TECHNOLOGY_DESCRIPTION@);
    let r3 = seed_step(r2, VIDEO_GAMES_SLUG@, VIDEO_GAMES_NAME@, VIDEO_GAMES_DESCRIPTION@);
    let r4 = seed_step(r3, ANIME_SLUG@, ANIME_NAME@, ANIME_DESCRIPTION@);
    let r5 = seed_step(r4, POLITICS_SLUG@, POLITICS_NAME@, POLITICS_DESCRIPTION@);
    assert(r5 == seeded(s));
    assert(r1 is Ok && r2 is Ok && r3 is Ok && r4 is Ok);
    let s1 = r1->Ok_0;
    let s2 = r2->Ok_0;
    let s3 = r3->Ok_0;
    let s4 = r4->Ok_0;
    let s5 = r5->Ok_0;
    lemma_seed_step_names(s, RANDOM_SLUG@, RANDOM_NAME@, RANDOM_DESCRIPTION@);
    lemma_seed_step_names(s1, TECHNOLOGY_SLUG@, TECHNOLOGY_NAME@, TECHNOLOGY_DESCRIPTION@);
    lemma_seed_step_names(s2, VIDEO_GAMES_SLUG@, VIDEO_GAMES_NAME@, VIDEO_GAMES_DESCRIPTION@);
    lemma_seed_step_names(s3, ANIME_SLUG@, ANIME_NAME@, ANIME_DESCRIPTION@);
    lemma_seed_step_names(s4, POLITICS_SLUG@, POLITICS_NAME@, POLITICS_DESCRIPTION@);
    // The five slugs differ in their first letter.
    assert(RANDOM_SLUG@[0] == 'b' && TECHNOLOGY_SLUG@[0] == 'g' && VIDEO_GAMES_SLUG@[0] == 'v'
        && ANIME_SLUG@[0] == 'a' && POLITICS_SLUG@[0] == 'p');
    assert(RANDOM_SLUG@ != TECHNOLOGY_SLUG@ && RANDOM_SLUG@ != VIDEO_GAMES_SLUG@ && RANDOM_SLUG@ != ANIME_SLUG@
        && RANDOM_SLUG@ != POLITICS_SLUG@);
    assert(TECHNOLOGY_SLUG@ != VIDEO_GAMES_SLUG@ && TECHNOLOGY_SLUG@ != ANIME_SLUG@ && TECHNOLOGY_SLUG@
        != POLITICS_SLUG@);
    assert(VIDEO_GAMES_SLUG@ != ANIME_SLUG@ && VIDEO_GAMES_SLUG@ != POLITICS_SLUG@);
    assert(ANIME_SLUG@ != POLITICS_SLUG@);
    // Each board keeps, through the other steps, what its own step made of it.
    assert(board_named(s1.boards, TECHNOLOGY_SLUG@) == board_named(s.boards, TECHNOLOGY_SLUG@));
    assert(board_named(s2.boards, VIDEO_GAMES_SLUG@) == board_named(s.boards, VIDEO_GAMES_SLUG@));
    assert(board_named(s3.boards, ANIME_SLUG@) == board_named(s.boards, ANIME_SLUG@));
    assert(board_named(s4.boards, POLITICS_SLUG@) == board_named(s.boards, POLITICS_SLUG@));
    assert(board_named(s5.boards, RANDOM_SLUG@) == board_named(s1.boards, RANDOM_SLUG@));
    assert(board_named(s5.boards, TECHNOLOGY_SLUG@) == board_named(s2.boards, TECHNOLOGY_SLUG@));
    assert(board_named(s5.boards, VIDEO_GAMES_SLUG@) == board_named(s3.boards, VIDEO_GAMES_SLUG@));
    assert(board_named(s5.boards, ANIME_SLUG@) == board_named(s4.boards, ANIME_SLUG@));
}

/// Seeding succeeds wherever five board ids are left to hand out (as in an empty store), so
/// there every default board is made as `law_seeded_boards_have_their_names` says.
pub proof fn law_seeding_succeeds_with_ids_left(s: StoreV)
    requires
        s.last_board_id <= i64::MAX - 5,
    ensures
        seeded(s) is Ok,
{
    let r1 = seed_step(Ok(s), RANDOM_SLUG@, RANDOM_NAME@, RANDOM_DESCRIPTION@);
    let r2 = seed_step(r1, TECHNOLOGY_SLUG@, TECHNOLOGY_NAME@, TECHNOLOGY_DESCRIPTION@);
    let r3 = seed_step(r2, VIDEO_GAMES_SLUG@, VIDEO_GAMES_NAME@, VIDEO_GAMES_DESCRIPTION@);
    let r4 = seed_step(r3, ANIME_SLUG@, ANIME_NAME@, ANIME_DESCRIPTION@);
    assert(r1 is Ok && r1->Ok_0.last_board_id <= s.last_board_id + 1);
    assert(r2 is Ok && r2->Ok_0.last_board_id <= s.last_board_id + 2);
    assert(r3 is Ok && r3->Ok_0.last_board_id <= s.last_board_id + 3);
    assert(r4 is Ok && r4->Ok_0.last_board_id <= s.last_board_id + 4);
}

} // verus!
