//! The navigation: posts sorted by order and filed under the configured headers.

use vstd::prelude::*;
use vstd::string::*;
use vstd::utf8::*;

use crate::generate::Generator;
use crate::sort::{elements_of, key_bytes, sort_by_key, sort_spec, KeyBytes, SortKey};

verus! {

/// A post's place in the navigation.
pub struct SubItem {
    pub title: String,
    pub title_slug: String,
    pub order: String,
}

/// A navigation header with the posts filed under it.
pub struct MainItem {
    pub title: String,
    pub order: String,
    pub items: Vec<SubItem>,
}

/// The model of a navigation entry.
pub struct SubItemView {
    pub title: Seq<char>,
    pub title_slug: Seq<char>,
    pub order: Seq<char>,
}

/// The model of a navigation header.
pub struct MainItemView {
    pub title: Seq<char>,
    pub order: Seq<char>,
    pub items: Seq<SubItemView>,
}

impl View for SubItem {
    type V = SubItemView;

    open spec fn view(&self) -> SubItemView {
        SubItemView { title: self.title@, title_slug: self.title_slug@, order: self.order@ }
    }
}

impl View for MainItem {
    type V = MainItemView;

    open spec fn view(&self) -> MainItemView {
        MainItemView {
            title: self.title@,
            order: self.order@,
            items: self.items@.map_values(|s: SubItem| s@),
        }
    }
}

/// The text before the first `.`, or all of it when it has none.
pub open spec fn before_first_dot(s: Seq<char>) -> Seq<char>
    decreases s.len(),
{
    if s.len() == 0 {
        Seq::empty()
    } else if s[0] == '.' {
        Seq::empty()
    } else {
        seq![s[0]] + before_first_dot(s.drop_first())
    }
}

/// `before_first_dot` is the prefix up to the first dot.
proof fn lemma_before_first_dot(s: Seq<char>, i: int)
    requires
        0 <= i <= s.len(),
        forall|j: int| 0 <= j < i ==> s[j] != '.',
        i == s.len() || s[i] == '.',
    ensures
        before_first_dot(s) == s.subrange(0, i),
    decreases i,
{
    if i == 0 {
        assert(s.subrange(0, 0) =~= Seq::<char>::empty());
    } else {
        lemma_before_first_dot(s.drop_first(), i - 1);
        assert(seq![s[0]] + s.drop_first().subrange(0, i - 1) =~= s.subrange(0, i));
    }
}

/// The model of a new navigation header.
pub open spec fn main_item_spec(title: Seq<char>) -> MainItemView {
    MainItemView { title, order: before_first_dot(title), items: Seq::empty() }
}

impl MainItem {
    /// A header without posts, ordered by the part of its title before the first dot.
    pub fn new(title: String) -> (r: MainItem)
        ensures
            r@ == main_item_spec(title@),
            r.title == title,
    {
        let n = title.as_str().unicode_len();
        let mut i: usize = 0;
        while i < n && title.as_str().get_char(i) != '.'
            invariant
                n == title@.len(),
                i <= n,
                forall|j: int| 0 <= j < i ==> title@[j] != '.',
            decreases n - i,
        {
            i = i + 1;
        }
        proof {
            lemma_before_first_dot(title@, i as int);
        }
        let order = String::from_str(title.as_str().substring_char(0, i));
        let items: Vec<SubItem> = Vec::new();
        let r = MainItem { title, order, items };
        assert(r@.items =~= Seq::<SubItemView>::empty());
        r
    }
}

impl SubItem {
    pub fn new(title: String, title_slug: String, order: String) -> (r: SubItem)
        ensures
            r.title == title,
            r.title_slug == title_slug,
            r.order == order,
    {
        SubItem { title, title_slug, order }
    }
}

/// The first character of a text, if any.
pub open spec fn first_char(s: Seq<char>) -> Option<char> {
    if s.len() > 0 {
        Some(s[0])
    } else {
        None
    }
}

/// The first character of a text, if any.
fn first_char_of(s: &str) -> (r: Option<char>)
    ensures
        r == first_char(s@),
{
    if s.unicode_len() > 0 {
        Some(s.get_char(0))
    } else {
        None
    }
}

/// A navigation entry: order, title and slug of a post.
pub type NavEntry = (Seq<char>, Seq<char>, Seq<char>);

/// The model of a navigation entry as given.
pub open spec fn nav_entry_view(p: (String, String, String)) -> NavEntry {
    (p.0@, p.1@, p.2@)
}

/// The navigation item of an entry.
pub open spec fn sub_item_of(p: NavEntry) -> SubItemView {
    SubItemView { title: p.1, title_slug: p.2, order: p.0 }
}

/// Where the grouping of posts under headers stands.
pub struct NavState {
    pub done: Seq<MainItemView>,
    pub current: MainItemView,
    pub headers: Seq<Seq<char>>,
}

/// Files one post: under the current header when its order starts with the
/// same character as the header's order, otherwise under the next header (or
/// a header titled `none` once the headers are used up).
pub open spec fn nav_step(st: NavState, p: NavEntry) -> NavState {
    if first_char(p.0) == first_char(st.current.order) {
        NavState {
            done: st.done,
            current: MainItemView {
                title: st.current.title,
                order: st.current.order,
                items: st.current.items.push(sub_item_of(p)),
            },
            headers: st.headers,
        }
    } else {
        let next = if st.headers.len() > 0 {
            main_item_spec(st.headers[0])
        } else {
            main_item_spec("none"@)
        };
        NavState {
            done: st.done.push(st.current),
            current: MainItemView {
                title: next.title,
                order: next.order,
                items: seq![sub_item_of(p)],
            },
            headers: if st.headers.len() > 0 {
                st.headers.drop_first()
            } else {
                st.headers
            },
        }
    }
}

/// Files the posts one after the other.
pub open spec fn nav_fold(st: NavState, posts: Seq<NavEntry>) -> NavState
    decreases posts.len(),
{
    if posts.len() == 0 {
        st
    } else {
        nav_step(nav_fold(st, posts.drop_last()), posts.last())
    }
}

/// The navigation of posts already sorted by order, under the given headers.
pub open spec fn navigation_spec(posts: Seq<NavEntry>, headers: Seq<Seq<char>>) -> Seq<MainItemView> {
    let st0 = NavState {
        done: Seq::empty(),
        current: main_item_spec(headers[0]),
        headers: headers.drop_first(),
    };
    let f = nav_fold(st0, posts);
    f.done.push(f.current)
}

/// The sort key of a navigation entry: its order.
pub open spec fn nav_key() -> spec_fn((String, String, String)) -> KeyBytes {
    |p: (String, String, String)| (encode_utf8(p.0@), Seq::<u8>::empty())
}

/// The models of a list of headers.
pub open spec fn main_items_view(items: Seq<MainItem>) -> Seq<MainItemView> {
    items.map_values(|m: MainItem| m@)
}

} // verus!

verus! {

/// Whether two texts start with the same character (or are both empty).
fn same_first_char(a: &str, b: &str) -> (r: bool)
    ensures
        r == (first_char(a@) == first_char(b@)),
{
    match (first_char_of(a), first_char_of(b)) {
        (Some(x), Some(y)) => x == y,
        (None, None) => true,
        _ => false,
    }
}

/// The models of navigation entries.
pub open spec fn nav_entries_view(s: Seq<(String, String, String)>) -> Seq<NavEntry> {
    s.map_values(|p: (String, String, String)| nav_entry_view(p))
}

impl Generator {
    /// The navigation of the posts: the entries sorted by order, then filed
    /// under the configured headers in turn.
    pub fn generate_navigation(&self, posts: Vec<(String, String, String)>) -> (r: Vec<MainItem>)
        requires
            self.config.headers@.len() > 0,
        ensures
            main_items_view(r@) == navigation_spec(
                nav_entries_view(sort_spec(posts@, nav_key())),
                self.config.headers@.map_values(|h: String| h@),
            ),
    {
        let ghost given = posts@;
        let mut keyed: Vec<(SortKey, (String, String, String))> = Vec::new();
        let mut rest = posts;
        assert(elements_of(keyed@) + rest@ =~= given);
        while rest.len() > 0
            invariant
                elements_of(keyed@) + rest@ == given,
                forall|k: int|
                    0 <= k < keyed@.len() ==> key_bytes(#[trigger] keyed@[k].0) == (nav_key())(
                        keyed@[k].1,
                    ),
            decreases rest@.len(),
        {
            let ghost before = rest@;
            let p = rest.remove(0);
            let key = SortKey { primary: p.0.clone(), secondary: String::new() };
            assert(key_bytes(key) =~= (nav_key())(p));
            let ghost k0 = elements_of(keyed@);
            keyed.push((key, p));
            assert(elements_of(keyed@) =~= k0.push(p));
            assert(elements_of(keyed@) + rest@ =~= k0 + before);
        }
        assert(elements_of(keyed@) =~= given);
        let sorted = sort_by_key(keyed, Ghost(nav_key()));
        let ghost sv = nav_entries_view(sorted@);
        let ghost hv = self.config.headers@.map_values(|h: String| h@);
        let headers = &self.config.headers;
        let ghost st0 = NavState {
            done: Seq::empty(),
            current: main_item_spec(hv[0]),
            headers: hv.drop_first(),
        };
        let mut navigator: Vec<MainItem> = Vec::new();
        let mut current = MainItem::new(headers[0].clone());
        let mut next: usize = 1;
        let mut i: usize = 0;
        proof {
            assert(sv.subrange(0, 0) =~= Seq::<NavEntry>::empty());
            assert(main_items_view(navigator@) =~= Seq::<MainItemView>::empty());
            assert(hv.subrange(1, hv.len() as int) =~= hv.drop_first());
        }
        while i < sorted.len()
            invariant
                sv == nav_entries_view(sorted@),
                hv == headers@.map_values(|h: String| h@),
                1 <= next <= headers@.len(),
                i <= sorted@.len(),
                st0 == (NavState {
                    done: Seq::empty(),
                    current: main_item_spec(hv[0]),
                    headers: hv.drop_first(),
                }),
                main_items_view(navigator@) == nav_fold(st0, sv.subrange(0, i as int)).done,
                current@ == nav_fold(st0, sv.subrange(0, i as int)).current,
                hv.subrange(next as int, hv.len() as int) == nav_fold(
                    st0,
                    sv.subrange(0, i as int),
                ).headers,
            decreases sorted@.len() - i,
        {
            let ghost f = nav_fold(st0, sv.subrange(0, i as int));
            assert(sv.subrange(0, i + 1).drop_last() =~= sv.subrange(0, i as int));
            assert(sv.subrange(0, i + 1).last() == sv[i as int]);
            let p = &sorted[i];
            if !same_first_char(p.0.as_str(), current.order.as_str()) {
                let ghost done0 = main_items_view(navigator@);
                navigator.push(current);
                assert(main_items_view(navigator@) =~= done0.push(f.current));
                if next < headers.len() {
                    current = MainItem::new(headers[next].clone());
                    assert(hv.subrange(next + 1, hv.len() as int) =~= hv.subrange(
                        next as int,
                        hv.len() as int,
                    ).drop_first());
                    next = next + 1;
                } else {
                    current = MainItem::new(String::from_str("none"));
                }
            }
            let ghost items0 = current@.items;
            current.items.push(SubItem::new(p.1.clone(), p.2.clone(), p.0.clone()));
            assert(current@.items =~= items0.push(sub_item_of(sv[i as int])));
            i = i + 1;
        }
        let ghost f = nav_fold(st0, sv);
        assert(sv.subrange(0, i as int) =~= sv);
        let ghost done0 = main_items_view(navigator@);
        navigator.push(current);
        assert(main_items_view(navigator@) =~= done0.push(f.current));
        navigator
    }
}

} // verus!

verus! {

/// The navigation items of the headers, one header after the other.
pub open spec fn all_items(groups: Seq<MainItemView>) -> Seq<SubItemView>
    decreases groups.len(),
{
    if groups.len() == 0 {
        Seq::empty()
    } else {
        all_items(groups.drop_last()) + groups.last().items
    }
}

/// The items of the headers so far, followed by the filed posts.
proof fn lemma_nav_fold_items(st: NavState, posts: Seq<NavEntry>)
    ensures
        ({
            let f = nav_fold(st, posts);
            all_items(f.done.push(f.current)) == all_items(st.done.push(st.current))
                + posts.map_values(|p: NavEntry| sub_item_of(p))
        }),
    decreases posts.len(),
{
    let subs = posts.map_values(|p: NavEntry| sub_item_of(p));
    if posts.len() == 0 {
        assert(subs =~= Seq::<SubItemView>::empty());
        assert(all_items(st.done.push(st.current)) + subs =~= all_items(st.done.push(st.current)));
    } else {
        let g = nav_fold(st, posts.drop_last());
        lemma_nav_fold_items(st, posts.drop_last());
        let p = posts.last();
        let prev = posts.drop_last().map_values(|q: NavEntry| sub_item_of(q));
        assert(subs =~= prev.push(sub_item_of(p)));
        let f = nav_step(g, p);
        assert(g.done.push(g.current).drop_last() =~= g.done);
        if first_char(p.0) == first_char(g.current.order) {
            assert(f.done.push(f.current).drop_last() =~= g.done);
        } else {
            assert(f.done.push(f.current).drop_last() =~= g.done.push(g.current));
            assert(f.done.push(f.current).drop_last().drop_last() =~= g.done);
        }
        assert(all_items(f.done.push(f.current)) =~= all_items(g.done.push(g.current)).push(
            sub_item_of(p),
        ));
        assert(all_items(st.done.push(st.current)) + subs =~= (all_items(st.done.push(st.current))
            + prev).push(sub_item_of(p)));
    }
}

/// Every post stands in the navigation exactly once, in the order given.
pub proof fn lemma_navigation_keeps_posts(posts: Seq<NavEntry>, headers: Seq<Seq<char>>)
    requires
        headers.len() > 0,
    ensures
        all_items(navigation_spec(posts, headers)) == posts.map_values(|p: NavEntry| sub_item_of(p)),
{
    let st0 = NavState {
        done: Seq::empty(),
        current: main_item_spec(headers[0]),
        headers: headers.drop_first(),
    };
    lemma_nav_fold_items(st0, posts);
    let one = st0.done.push(st0.current);
    assert(one.drop_last() =~= Seq::<MainItemView>::empty());
    assert(all_items(one.drop_last()) =~= Seq::<SubItemView>::empty());
    assert(one.last() == st0.current);
    assert(all_items(one) =~= Seq::<SubItemView>::empty());
    assert(all_items(one) + posts.map_values(|p: NavEntry| sub_item_of(p)) =~= posts.map_values(
        |p: NavEntry| sub_item_of(p),
    ));
}

} // verus!

verus! {

/// The title of the group that the `k`-th header change opens: the `k`-th
/// configured header, then `none` once the headers are used up.
pub open spec fn header_title(headers: Seq<Seq<char>>, k: int) -> Seq<char> {
    if k < headers.len() {
        headers[k]
    } else {
        "none"@
    }
}

/// A grouping state in which the headers were taken in turn.
spec fn headers_taken_in_turn(st: NavState, headers: Seq<Seq<char>>) -> bool {
    let n = st.done.len() as int;
    &&& forall|k: int| 0 <= k < n ==> #[trigger] st.done[k].title == header_title(headers, k)
    &&& st.current.title == header_title(headers, n)
    &&& st.headers == (if n + 1 <= headers.len() {
        headers.subrange(n + 1, headers.len() as int)
    } else {
        Seq::empty()
    })
}

proof fn lemma_nav_fold_headers(st: NavState, posts: Seq<NavEntry>, headers: Seq<Seq<char>>)
    requires
        headers_taken_in_turn(st, headers),
    ensures
        headers_taken_in_turn(nav_fold(st, posts), headers),
    decreases posts.len(),
{
    if posts.len() > 0 {
        lemma_nav_fold_headers(st, posts.drop_last(), headers);
        let g = nav_fold(st, posts.drop_last());
        let p = posts.last();
        let f = nav_step(g, p);
        let n = g.done.len() as int;
        if first_char(p.0) != first_char(g.current.order) {
            assert forall|k: int| 0 <= k < n + 1 implies #[trigger] f.done[k].title
                == header_title(headers, k) by {
                if k < n {
                    assert(f.done[k] == g.done[k]);
                }
            }
            if n + 1 < headers.len() {
                assert(g.headers[0] == headers[n + 1]);
                assert(g.headers.drop_first() =~= headers.subrange(n + 2, headers.len() as int));
            } else {
                assert(g.headers =~= Seq::<Seq<char>>::empty());
            }
        }
    }
}

/// The navigation takes the configured headers one after the other: the
/// `k`-th group is titled with the `k`-th header, and the groups beyond the
/// configured headers are titled `none`. No header is used twice or skipped.
pub proof fn lemma_navigation_uses_headers_in_turn(posts: Seq<NavEntry>, headers: Seq<Seq<char>>)
    requires
        headers.len() > 0,
    ensures
        forall|k: int|
            0 <= k < navigation_spec(posts, headers).len() ==> #[trigger] navigation_spec(
                posts,
                headers,
            )[k].title == (if k < headers.len() {
                headers[k]
            } else {
                "none"@
            }),
{
    let st0 = NavState {
        done: Seq::empty(),
        current: main_item_spec(headers[0]),
        headers: headers.drop_first(),
    };
    assert(headers.drop_first() =~= headers.subrange(1, headers.len() as int));
    if headers.len() == 1 {
        assert(headers.drop_first() =~= Seq::<Seq<char>>::empty());
    }
    lemma_nav_fold_headers(st0, posts, headers);
    let f = nav_fold(st0, posts);
    let g = navigation_spec(posts, headers);
    assert forall|k: int| 0 <= k < g.len() implies #[trigger] g[k].title == (if k < headers.len() {
        headers[k]
    } else {
        "none"@
    }) by {
        if k < f.done.len() {
            assert(g[k] == f.done[k]);
        }
    }
}

/// Groups filed by the first character of the posts' orders: each group's
/// order is its title up to the first dot; every group after the first opens
/// with a post; a post stays in its group exactly while its order starts
/// with the group's first character.
spec fn filed_by_first_char(gs: Seq<MainItemView>) -> bool {
    &&& forall|k: int| 0 <= k < gs.len() ==> #[trigger] gs[k].order == before_first_dot(gs[k].title)
    &&& forall|k: int| 1 <= k < gs.len() ==> #[trigger] gs[k].items.len() > 0
    &&& forall|k: int, m: int|
        0 <= k < gs.len() && 0 <= m < gs[k].items.len() && (k == 0 || m > 0) ==> first_char(
            #[trigger] gs[k].items[m].order,
        ) == first_char(gs[k].order)
    &&& forall|k: int|
        1 <= k < gs.len() ==> first_char(#[trigger] gs[k].items[0].order) != first_char(
            gs[k - 1].order,
        )
}

proof fn lemma_nav_fold_filed(st: NavState, posts: Seq<NavEntry>)
    requires
        filed_by_first_char(st.done.push(st.current)),
    ensures
        ({
            let f = nav_fold(st, posts);
            filed_by_first_char(f.done.push(f.current))
        }),
    decreases posts.len(),
{
    if posts.len() > 0 {
        lemma_nav_fold_filed(st, posts.drop_last());
        let g = nav_fold(st, posts.drop_last());
        let p = posts.last();
        let f = nav_step(g, p);
        let old_gs = g.done.push(g.current);
        let gs = f.done.push(f.current);
        let n = g.done.len() as int;
        if first_char(p.0) == first_char(g.current.order) {
            assert(gs.len() == old_gs.len());
            assert forall|k: int| 0 <= k < n implies #[trigger] gs[k] == old_gs[k] by {}
            assert(gs[n].items == old_gs[n].items.push(sub_item_of(p)));
            assert(gs[n].order == old_gs[n].order && gs[n].title == old_gs[n].title);
            assert forall|k: int, m: int|
                0 <= k < gs.len() && 0 <= m < gs[k].items.len() && (k == 0 || m > 0) implies first_char(
                #[trigger] gs[k].items[m].order,
            ) == first_char(gs[k].order) by {
                if k < n {
                    assert(gs[k] == old_gs[k]);
                } else if m < old_gs[n].items.len() {
                    assert(gs[k].items[m] == old_gs[k].items[m]);
                }
            }
            assert forall|k: int| 1 <= k < gs.len() implies first_char(
                #[trigger] gs[k].items[0].order,
            ) != first_char(gs[k - 1].order) by {
                if k < n {
                    assert(gs[k] == old_gs[k] && gs[k - 1] == old_gs[k - 1]);
                } else {
                    assert(gs[k].items[0] == old_gs[k].items[0]);
                    assert(gs[k - 1] == old_gs[k - 1]);
                }
            }
            assert forall|k: int| 1 <= k < gs.len() implies #[trigger] gs[k].items.len() > 0 by {
                if k < n {
                    assert(gs[k] == old_gs[k]);
                }
            }
            assert forall|k: int| 0 <= k < gs.len() implies #[trigger] gs[k].order
                == before_first_dot(gs[k].title) by {
                if k < n {
                    assert(gs[k] == old_gs[k]);
                }
            }
        } else {
            assert(gs.len() == old_gs.len() + 1);
            assert forall|k: int| 0 <= k <= n implies #[trigger] gs[k] == old_gs[k] by {}
            assert(gs[n + 1].items =~= seq![sub_item_of(p)]);
            assert forall|k: int, m: int|
                0 <= k < gs.len() && 0 <= m < gs[k].items.len() && (k == 0 || m > 0) implies first_char(
                #[trigger] gs[k].items[m].order,
            ) == first_char(gs[k].order) by {
                if k <= n {
                    assert(gs[k] == old_gs[k]);
                }
            }
            assert forall|k: int| 1 <= k < gs.len() implies first_char(
                #[trigger] gs[k].items[0].order,
            ) != first_char(gs[k - 1].order) by {
                if k <= n {
                    assert(gs[k] == old_gs[k] && gs[k - 1] == old_gs[k - 1]);
                } else {
                    assert(gs[k - 1] == old_gs[n]);
                }
            }
            assert forall|k: int| 1 <= k < gs.len() implies #[trigger] gs[k].items.len() > 0 by {
                if k <= n {
                    assert(gs[k] == old_gs[k]);
                }
            }
            assert forall|k: int| 0 <= k < gs.len() implies #[trigger] gs[k].order
                == before_first_dot(gs[k].title) by {
                if k <= n {
                    assert(gs[k] == old_gs[k]);
                }
            }
        }
    }
}

/// The navigation files posts by the first character of their order: each
/// group's order is its title up to the first dot; every group after the
/// first opens with a post whose order starts differently from the group
/// before; and every other post stands in a group whose order starts with the
/// same character as the post's order.
pub proof fn lemma_navigation_files_by_first_char(posts: Seq<NavEntry>, headers: Seq<Seq<char>>)
    requires
        headers.len() > 0,
    ensures
        ({
            let gs = navigation_spec(posts, headers);
            &&& forall|k: int|
                0 <= k < gs.len() ==> #[trigger] gs[k].order == before_first_dot(gs[k].title)
            &&& forall|k: int| 1 <= k < gs.len() ==> #[trigger] gs[k].items.len() > 0
            &&& forall|k: int, m: int|
                0 <= k < gs.len() && 0 <= m < gs[k].items.len() && (k == 0 || m > 0) ==> first_char(
                    #[trigger] gs[k].items[m].order,
                ) == first_char(gs[k].order)
            &&& forall|k: int|
                1 <= k < gs.len() ==> first_char(#[trigger] gs[k].items[0].order) != first_char(
                    gs[k - 1].order,
                )
        }),
{
    let st0 = NavState {
        done: Seq::empty(),
        current: main_item_spec(headers[0]),
        headers: headers.drop_first(),
    };
    let one = st0.done.push(st0.current);
    assert(one.len() == 1 && one[0] == st0.current);
    lemma_nav_fold_filed(st0, posts);
}

} // verus!

