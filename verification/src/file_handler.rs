//! Where posts live on disk, and which files a copy of content takes along.

use vstd::prelude::*;
use vstd::string::*;

use crate::generate::join_path;
use crate::text::same_text;

verus! {

/// The folders a site needs before anything else.
pub struct FileHandler {}

/// Whether a character may stand in a slug: a lowercase ASCII letter, a digit or `-`.
pub open spec fn is_slug_char(c: char) -> bool {
    ('a' <= c <= 'z') || ('0' <= c <= '9') || c == '-'
}

/// The slug that `slugify::slugify` makes of a text with no stop words, `-` as
/// separator and no length limit.
pub uninterp spec fn default_slug(text: Seq<char>) -> Seq<char>;

/// Calls `slugify::slugify(text, "", "-", None)`, which the `slugify!` macro
/// expands to. Claimed: the result is the named `default_slug` of the text, and,
/// as the crate's final loop shows, it holds only lowercase ASCII letters,
/// digits and `-`, with no `-` first or last. What the transliteration before
/// that loop makes of the text is left to the name.
#[verifier::external_body]
fn slug(text: &str) -> (r: String)
    ensures
        r@ == default_slug(text@),
        forall|i: int| 0 <= i < r@.len() ==> is_slug_char(#[trigger] r@[i]),
        r@.len() > 0 ==> r@[0] != '-' && r@[r@.len() - 1] != '-',
{
    slugify::slugify(text, "", "-", None)
}

/// The extension of a file name, as `Path::extension` documents it: the part
/// after the last `.`, where there is a `.` that is not the name's first
/// character; none for `..`.
pub open spec fn extension_of(name: Seq<char>) -> Option<Seq<char>> {
    if name == ".."@ {
        None
    } else {
        match last_dot(name) {
            Some(i) => if i == 0 {
                None
            } else {
                Some(name.subrange(i + 1, name.len() as int))
            },
            None => None,
        }
    }
}

/// Where the last `.` of a text stands.
pub open spec fn last_dot(s: Seq<char>) -> Option<int>
    decreases s.len(),
{
    if s.len() == 0 {
        None
    } else if s.last() == '.' {
        Some(s.len() - 1)
    } else {
        last_dot(s.drop_last())
    }
}

proof fn lemma_last_dot(s: Seq<char>, i: int)
    requires
        -1 <= i < s.len(),
        forall|j: int| i < j < s.len() ==> s[j] != '.',
        i >= 0 ==> s[i] == '.',
    ensures
        last_dot(s) == (if i >= 0 {
            Some(i)
        } else {
            None::<int>
        }),
    decreases s.len(),
{
    if s.len() > 0 && i < s.len() - 1 {
        lemma_last_dot(s.drop_last(), i);
    }
}

/// The folder of a post: `posts/<slug>`.
pub open spec fn post_folder_path(post_name: Seq<char>) -> Seq<char> {
    "posts"@ + "/"@ + default_slug(post_name)
}

/// The markdown file of a post: `posts/<slug>/<slug>.md`.
pub open spec fn post_file_path(post_name: Seq<char>) -> Seq<char> {
    "posts"@ + "/"@ + default_slug(post_name) + "/"@ + default_slug(post_name) + ".md"@
}

/// The file that creating a post writes lies in the folder that deleting the
/// post removes.
pub proof fn lemma_post_file_in_post_folder(post_name: Seq<char>)
    ensures
        post_file_path(post_name) == post_folder_path(post_name) + "/"@ + default_slug(post_name)
            + ".md"@,
{
}

impl FileHandler {
    /// The folders to create before anything else: `posts` and `templates`.
    pub fn initalize() -> (r: Vec<&'static str>)
        ensures
            r@.len() == 2,
            r@[0]@ == "posts"@,
            r@[1]@ == "templates"@,
    {
        let mut v: Vec<&'static str> = Vec::new();
        v.push("posts");
        v.push("templates");
        v
    }

    /// The slug of a post's name.
    pub fn post_slug(post_name: &str) -> (r: String)
        ensures
            r@ == default_slug(post_name@),
            forall|i: int| 0 <= i < r@.len() ==> is_slug_char(#[trigger] r@[i]),
    {
        slug(post_name)
    }

    /// The folder of a post: `posts/<slug>`.
    pub fn post_folder(post_name: &str) -> (r: String)
        ensures
            r@ == post_folder_path(post_name@),
    {
        let s = slug(post_name);
        join_path("posts", s.as_str())
    }

    /// The markdown file of a new post: `posts/<slug>/<slug>.md`.
    pub fn post_file(post_name: &str) -> (r: String)
        ensures
            r@ == post_file_path(post_name@),
    {
        let s = slug(post_name);
        let mut f = join_path("posts", s.as_str());
        f.append("/");
        f.append(s.as_str());
        f.append(".md");
        f
    }

    /// The extension of a file name.
    pub fn file_extension(name: &str) -> (r: Option<String>)
        ensures
            match r {
                Some(e) => extension_of(name@) == Some(e@),
                None => extension_of(name@) is None,
            },
    {
        if same_text(name, "..") {
            return None;
        }
        let n = name.unicode_len();
        let mut i = n;
        while i > 0 && name.get_char(i - 1) != '.'
            invariant
                n == name@.len(),
                i <= n,
                forall|j: int| i <= j < n ==> name@[j] != '.',
            decreases i,
        {
            i = i - 1;
        }
        proof {
            lemma_last_dot(name@, i - 1);
        }
        if i <= 1 {
            None
        } else {
            Some(String::from_str(name.substring_char(i, n)))
        }
    }

    /// Whether a copy of content takes a file along: every file whose name
    /// does not end in the extension `filter`, names without an extension
    /// included.
    pub fn should_move(name: &str, filter: &str) -> (r: bool)
        ensures
            r == (extension_of(name@) != Some(filter@)),
    {
        match FileHandler::file_extension(name) {
            Some(e) => !same_text(e.as_str(), filter),
            None => true,
        }
    }
}

} // verus!
