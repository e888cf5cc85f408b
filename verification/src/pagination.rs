//! The index: posts in index order, and the pages they are shown on.

use vstd::prelude::*;
use vstd::string::*;
use vstd::utf8::*;

use crate::generate::Generator;
use crate::post::Post;
use crate::sort::{elements_of, key_bytes, sort_by_key, sort_spec, KeyBytes, SortKey};

verus! {

/// The sort key of a post in the index: order ascending, then date descending.
pub open spec fn post_key() -> spec_fn(Post) -> KeyBytes {
    |p: Post| (encode_utf8(p.order@), encode_utf8(p.date@))
}

/// Takes the first `n` posts off the front of `vec`, in their order, and
/// leaves the rest; none where `n` is not positive.
pub fn get_first_n_elements(vec: &mut Vec<Post>, n: i32) -> (r: Vec<Post>)
    requires
        n <= old(vec)@.len(),
    ensures
        ({
            let k = page_size(n);
            &&& r@ == old(vec)@.subrange(0, k)
            &&& final(vec)@ == old(vec)@.subrange(k, old(vec)@.len() as int)
        }),
        r@ + final(vec)@ == old(vec)@,
{
    let ghost orig = vec@;
    let k: usize = if n > 0 {
        n as usize
    } else {
        0
    };
    let mut taken = vec.split_off(k);
    std::mem::swap(vec, &mut taken);
    assert(taken@ + vec@ =~= orig);
    taken
}

/// Whether the posts not shown yet fill a page: there are at least
/// `posts_per_page` of them, the setting read as a `usize` as the index does.
pub open spec fn full_page(rest: Seq<Post>, ppp: i32) -> bool {
    rest.len() >= (ppp as usize) as int
}

/// The number of posts a full page takes: `posts_per_page`, or none where it
/// is not positive.
pub open spec fn page_size(ppp: i32) -> int {
    if ppp > 0 {
        ppp as int
    } else {
        0
    }
}

/// The posts the next page shows: a full page shows the first
/// `posts_per_page` posts not shown yet; a short remainder is shown whole;
/// nothing left shows none.
pub open spec fn page_taken(rest: Seq<Post>, ppp: i32) -> Option<Seq<Post>> {
    if full_page(rest, ppp) {
        Some(rest.subrange(0, page_size(ppp)))
    } else if rest.len() > 0 {
        Some(rest)
    } else {
        None
    }
}

/// The posts left after the next page.
pub open spec fn rest_after(rest: Seq<Post>, ppp: i32) -> Seq<Post> {
    if full_page(rest, ppp) {
        rest.subrange(page_size(ppp), rest.len() as int)
    } else {
        Seq::empty()
    }
}

/// Whether another page follows the next one: exactly when, with a positive
/// page size, posts are left after it.
pub open spec fn more_pages(rest: Seq<Post>, ppp: i32) -> bool {
    ppp > 0 && rest.len() > ppp
}

/// The pages shown, page after page, until one says no page follows.
pub open spec fn collect_pages(rest: Seq<Post>, ppp: i32) -> Seq<Seq<Post>>
    decreases rest.len(),
{
    if ppp <= 0 || rest.len() == 0 {
        Seq::empty()
    } else if more_pages(rest, ppp) {
        seq![page_taken(rest, ppp)->0] + collect_pages(rest_after(rest, ppp), ppp)
    } else {
        seq![page_taken(rest, ppp)->0]
    }
}

/// The number of pages of `len` posts, `ppp` to a page: `len / ppp` rounded up.
pub open spec fn page_count(len: int, ppp: int) -> int {
    (len + ppp - 1) / ppp
}

/// With a positive page size and at least one post, the pages end after
/// `page_count` pages: every page but the last holds `posts_per_page` posts,
/// the last holds between one and `posts_per_page`, and the pages, one after
/// the other, are the posts in their order.
pub proof fn lemma_pages_cover_posts(s: Seq<Post>, ppp: i32)
    requires
        ppp > 0,
        s.len() > 0,
    ensures
        ({
            let pages = collect_pages(s, ppp);
            &&& pages.len() == page_count(s.len() as int, ppp as int)
            &&& forall|i: int| 0 <= i < pages.len() - 1 ==> #[trigger] pages[i].len() == ppp
            &&& 1 <= pages.last().len() <= ppp
            &&& pages.last().len() == s.len() - (pages.len() - 1) * (ppp as int)
            &&& pages.flatten() == s
        }),
    decreases s.len(),
{
    let k = ppp as int;
    let len = s.len() as int;
    assert((ppp as usize) as int == k);
    let pages = collect_pages(s, ppp);
    if len > k {
        let rest = s.subrange(k, len);
        let p0 = s.subrange(0, k);
        lemma_pages_cover_posts(rest, ppp);
        let tail = collect_pages(rest, ppp);
        assert(pages == seq![p0] + tail);
        assert(page_count(len, k) == page_count(len - k, k) + 1) by (nonlinear_arith)
            requires
                k > 0,
                len > k,
        ;
        assert(pages.drop_first() =~= tail);
        assert(pages.flatten() == p0 + tail.flatten());
        assert(s =~= p0 + rest);
        assert(pages.last() == tail.last());
        assert forall|i: int| 0 <= i < pages.len() - 1 implies #[trigger] pages[i].len() == ppp by {
            if i > 0 {
                assert(pages[i] == tail[i - 1]);
            }
        }
        assert(pages.last().len() == len - (pages.len() - 1) * k) by (nonlinear_arith)
            requires
                pages.last().len() == (len - k) - (tail.len() - 1) * k,
                pages.len() == tail.len() + 1,
        ;
    } else {
        assert(s.subrange(0, len) =~= s);
        assert(page_taken(s, ppp) == Some(s));
        assert(pages =~= seq![s]);
        assert(page_count(len, k) == 1) by (nonlinear_arith)
            requires
                0 < len <= k,
        ;
        assert(pages.flatten() =~= s) by {
            assert(pages.drop_first() =~= Seq::<Seq<Post>>::empty());
            assert(pages.drop_first().flatten() =~= Seq::<Post>::empty());
            assert(pages.flatten() == pages.first() + pages.drop_first().flatten());
        }
    }
}

/// One page of the index: the posts it shows (none when no post is left),
/// whether another page follows, and whether it also serves as the front page.
pub struct PageStep {
    pub posts: Option<Vec<Post>>,
    pub posts_left: bool,
    pub write_index: bool,
}

impl Generator {
    /// The posts in index order: by order ascending, then by date descending,
    /// posts with equal keys keeping their order.
    pub fn sort_posts(posts: Vec<Post>) -> (r: Vec<Post>)
        ensures
            r@ == sort_spec(posts@, post_key()),
    {
        let ghost given = posts@;
        let mut keyed: Vec<(SortKey, Post)> = Vec::new();
        let mut rest = posts;
        assert(elements_of(keyed@) + rest@ =~= given);
        while rest.len() > 0
            invariant
                elements_of(keyed@) + rest@ == given,
                forall|k: int|
                    0 <= k < keyed@.len() ==> key_bytes(#[trigger] keyed@[k].0) == (post_key())(
                        keyed@[k].1,
                    ),
            decreases rest@.len(),
        {
            let ghost before = rest@;
            let p = rest.remove(0);
            let key = SortKey { primary: p.order.clone(), secondary: p.date.clone() };
            let ghost k0 = elements_of(keyed@);
            keyed.push((key, p));
            assert(elements_of(keyed@) =~= k0.push(p));
            assert(elements_of(keyed@) + rest@ =~= k0 + before);
        }
        assert(elements_of(keyed@) =~= given);
        sort_by_key(keyed, Ghost(post_key()))
    }

    /// The next page of the paginated index, taken from the posts not shown
    /// yet: a full page takes the first `posts_per_page` of them; a short
    /// remainder is shown whole; another page follows exactly when posts are
    /// left after this one.
    pub fn next_page(&self, remaining: &mut Vec<Post>, page_counter: i32) -> (r: PageStep)
        ensures
            r.write_index == (page_counter == 1),
            r.posts_left == more_pages(old(remaining)@, self.config.posts_per_page),
            match r.posts {
                Some(page) => page_taken(old(remaining)@, self.config.posts_per_page) == Some(
                    page@,
                ),
                None => page_taken(old(remaining)@, self.config.posts_per_page) is None,
            },
            final(remaining)@ == rest_after(old(remaining)@, self.config.posts_per_page),
    {
        let ppp = self.config.posts_per_page;
        let write_index = page_counter == 1;
        #[verifier::truncate]
        let page = ppp as usize;
        if remaining.len() >= page {
            let posts_left = ppp > 0 && remaining.len() > page;
            let page_posts = get_first_n_elements(remaining, ppp);
            PageStep { posts: Some(page_posts), posts_left, write_index }
        } else if remaining.len() > 0 {
            let all = remaining.split_off(0);
            PageStep { posts: Some(all), posts_left: false, write_index }
        } else {
            PageStep { posts: None, posts_left: false, write_index }
        }
    }
}

} // verus!
