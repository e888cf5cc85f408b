//! What the local web server answers: which file a request names, and whether
//! the browser should reload.

use vstd::prelude::*;
use vstd::string::*;

use crate::generate::join_path;

verus! {

/// How many seconds back a change counts as recent.
pub const CHANGE_DURATION: u64 = 3;

/// The message of the change endpoint: `refresh` after a change, else `norefresh`.
pub fn change_message(any_change: bool) -> (r: &'static str)
    ensures
        r@ == (if any_change {
            "refresh"@
        } else {
            "norefresh"@
        }),
{
    if any_change {
        "refresh"
    } else {
        "norefresh"
    }
}

/// Whether a file modified `elapsed_secs` seconds ago changed recently.
pub fn changed_recently(elapsed_secs: u64) -> (r: bool)
    ensures
        r == (elapsed_secs < CHANGE_DURATION),
{
    elapsed_secs < CHANGE_DURATION
}

/// Whether a post request names a file (an image of a post) rather than a post:
/// it holds a dot.
pub fn is_file_request(post_name: &str) -> (r: bool)
    ensures
        r == post_name@.contains('.'),
{
    let n = post_name.unicode_len();
    let mut i: usize = 0;
    while i < n
        invariant
            n == post_name@.len(),
            i <= n,
            forall|j: int| 0 <= j < i ==> post_name@[j] != '.',
        decreases n - i,
    {
        if post_name.get_char(i) == '.' {
            return true;
        }
        i = i + 1;
    }
    false
}

/// Where a file of a post would lie in the build folder: `build/posts/<folder>/<file>`.
pub fn post_file_candidate(folder: &str, file: &str) -> (r: String)
    ensures
        r@ == "build/posts/"@ + folder@ + "/"@ + file@,
{
    let mut s = String::from_str("build/posts/");
    s.append(folder);
    s.append("/");
    s.append(file);
    s
}

/// The file that a post request is answered with: for a file request, the
/// file in the post folder that holds it (`none` where no folder does); for a
/// post, its page.
pub fn post_request_path(post_name: &str, holding_folder: Option<&str>) -> (r: String)
    ensures
        post_name@.contains('.') ==> r@ == "build"@ + "/posts/"@ + (match holding_folder {
            Some(f) => f@,
            None => "none"@,
        }) + "/"@ + post_name@,
        !post_name@.contains('.') ==> r@ == "build"@ + "/"@ + "posts"@ + "/"@ + post_name@
            + "/index.html"@,
{
    if is_file_request(post_name) {
        let folder = match holding_folder {
            Some(f) => f,
            None => "none",
        };
        let mut s = String::from_str("build");
        s.append("/posts/");
        s.append(folder);
        s.append("/");
        s.append(post_name);
        s
    } else {
        let mut s = join_path("build", "posts");
        s.append("/");
        s.append(post_name);
        s.append("/index.html");
        s
    }
}

/// The page of an extra page request: `build/<path>/index.html`.
pub fn extra_request_path(path: &str) -> (r: String)
    ensures
        r@ == "build"@ + "/"@ + path@ + "/index.html"@,
{
    let mut s = join_path("build", path);
    s.append("/index.html");
    s
}

} // verus!
