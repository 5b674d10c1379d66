//! The `file://` URLs under which the editor knows the files.

use vstd::prelude::*;
use vstd::string::StringExecFns;
use crate::text::chars_of;

verus! {

/// The URL that `Url::from_file_path` (of the `url` crate) makes of the
/// path `path`, written out; `None` when it refuses the path.
pub uninterp spec fn file_url(path: Seq<char>) -> Option<Seq<char>>;

/// Calls `Url::from_file_path` on `path` and writes the URL out: its result
/// is named [`file_url`].  On Unix, the platform this server is built for,
/// the crate refuses exactly the paths that are not absolute, so a path
/// that starts with `/` always has a URL.
#[verifier::external_body]
pub(crate) fn url_from_file_path(path: &str) -> (r: Option<String>)
    ensures
        match file_url(path@) {
            Some(u) => r matches Some(s) && s@ == u,
            None => r is None,
        },
        path@.len() > 0 && path@[0] == '/' ==> r is Some,
{
    async_lsp::lsp_types::Url::from_file_path(path).ok().map(|u| u.to_string())
}

/// The path that `Url::to_file_path` (of the `url` crate) makes of the URL
/// written `url`; `None` when the text is no URL, when the URL is no file
/// URL the crate can turn into a path, or when that path is not UTF-8.
pub uninterp spec fn url_file_path(url: Seq<char>) -> Option<Seq<char>>;

/// Parses `url` with `Url::parse` and calls `Url::to_file_path` on it: its
/// result is named [`url_file_path`].
#[verifier::external_body]
pub(crate) fn url_to_file_path(url: &str) -> (r: Option<String>)
    ensures
        match url_file_path(url@) {
            Some(p) => r matches Some(s) && s@ == p,
            None => r is None,
        },
{
    let parsed = async_lsp::lsp_types::Url::parse(url).ok()?;
    parsed.to_file_path().ok()?.into_os_string().into_string().ok()
}

/// The path made absolute: a relative path is taken from the root `/`.
pub open spec fn absolute_path(path: Seq<char>) -> Seq<char> {
    if path.len() > 0 && path[0] == '/' {
        path
    } else {
        "/"@ + path
    }
}

/// The URL of the file at `path`, a relative path being taken from the
/// root.
pub open spec fn path_url(path: Seq<char>) -> Seq<char> {
    file_url(absolute_path(path)).unwrap()
}

/// The URL of the file at `path`, a relative path being taken from the
/// root; such a path always has one.
pub fn path_to_url(path: &str) -> (r: String)
    ensures
        file_url(absolute_path(path@)) is Some,
        r@ == path_url(path@),
{
    proof {
        reveal_strlit("/");
    }
    let cs = chars_of(path);
    if cs.len() > 0 && cs[0] == '/' {
        match url_from_file_path(path) {
            Some(u) => u,
            None => String::new(),
        }
    } else {
        let mut abs = String::from_str("/");
        abs.append(path);
        proof {
            assert(abs@ =~= absolute_path(path@));
        }
        match url_from_file_path(abs.as_str()) {
            Some(u) => u,
            None => String::new(),
        }
    }
}

} // verus!
