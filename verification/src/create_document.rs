//! Creating a missing document: where its file goes, and the question put
//! to the user when the project is ambiguous.

use vstd::prelude::*;
use vstd::string::{StringExecFns, StringSliceAdditionalSpecFns};
use crate::completion_items::{starts_with_exec, str_starts_with};
use crate::sorting::{sort_strs, str_order, str_views};

verus! {

/// `{spec_dir}{feature}/{feature}.{type_short}.md`.
pub open spec fn document_path(spec_dir: Seq<char>, feature: Seq<char>, type_short: Seq<char>) -> Seq<char> {
    spec_dir + feature + "/"@ + feature + "."@ + type_short + ".md"@
}

/// The path of a new document, relative to the project root.
pub fn document_file_path(spec_dir: &str, feature: &str, type_short: &str) -> (r: String)
    ensures
        r@ == document_path(spec_dir@, feature@, type_short@),
{
    let mut s = String::from_str(spec_dir);
    s.append(feature);
    s.append("/");
    s.append(feature);
    s.append(".");
    s.append(type_short);
    s.append(".md");
    proof {
        reveal_strlit("/");
        reveal_strlit(".");
        reveal_strlit(".md");
    }
    s
}

/// The question asked before creating `target_ref` in a chosen project.
pub open spec fn project_prompt(target_ref: Seq<char>) -> Seq<char> {
    "Which project should '"@ + target_ref + "' be created in?"@
}

/// The question asked before creating `target_ref`.
pub fn project_prompt_exec(target_ref: &str) -> (r: String)
    ensures
        r@ == project_prompt(target_ref@),
{
    let mut s = String::from_str("Which project should '");
    s.append(target_ref);
    s.append("' be created in?");
    s
}

/// The project names offered to the user, sorted.
pub fn project_choices<'a>(names: Vec<&'a str>) -> (r: Vec<&'a str>)
    ensures
        str_views(r@) == str_views(names@).sort_by(str_order()),
{
    sort_strs(names)
}

/// The spec directory of each project whose patterns' fixed prefixes
/// (one list per project) include one that `rel_path` starts with: the
/// first such prefix of the project.
pub open spec fn matching_dirs(prefixes: Seq<Seq<Seq<char>>>, rel_path: Seq<char>) -> Seq<Seq<char>>
    decreases prefixes.len(),
{
    if prefixes.len() == 0 {
        Seq::empty()
    } else {
        let rest = matching_dirs(prefixes.drop_last(), rel_path);
        match first_match(prefixes.last(), rel_path) {
            Some(p) => rest.push(p),
            None => rest,
        }
    }
}

/// The first of `ps` that `rel_path` starts with.
pub open spec fn first_match(ps: Seq<Seq<char>>, rel_path: Seq<char>) -> Option<Seq<char>>
    decreases ps.len(),
{
    if ps.len() == 0 {
        None
    } else if str_starts_with(rel_path, ps[0]) {
        Some(ps[0])
    } else {
        first_match(ps.drop_first(), rel_path)
    }
}

/// The spec directory for a new document: `specs/` with no projects;
/// otherwise the directory of the one project that owns the current file
/// (`None` when the file lies in none or in several, or when its path is
/// not under the project root).
pub open spec fn spec_dir_for(prefixes: Option<Seq<Seq<Seq<char>>>>, rel_path: Option<Seq<char>>) -> Option<
    Seq<char>,
> {
    match prefixes {
        None => Some("specs/"@),
        Some(ps) => if ps.len() == 0 {
            Some("specs/"@)
        } else {
            match rel_path {
                None => None,
                Some(rp) => {
                    let dirs = matching_dirs(ps, rp);
                    if dirs.len() == 1 {
                        Some(dirs[0])
                    } else {
                        None
                    }
                },
            }
        },
    }
}

/// The prefixes of each project, as characters.
pub open spec fn prefixes_view(p: Option<&[Vec<String>]>) -> Option<Seq<Seq<Seq<char>>>> {
    match p {
        Some(v) => Some(v@.map_values(|ps: Vec<String>| ps@.map_values(|s: String| s@))),
        None => None,
    }
}

/// The characters of an optional string slice.
pub open spec fn opt_chars(o: Option<&str>) -> Option<Seq<char>> {
    match o {
        Some(s) => Some(s@),
        None => None,
    }
}

/// The first of `ps` that `rel_path` starts with.
fn first_match_exec<'a>(ps: &'a Vec<String>, rel_path: &str) -> (r: Option<&'a String>)
    ensures
        match first_match(ps@.map_values(|s: String| s@), rel_path@) {
            Some(p) => r matches Some(x) && x@ == p,
            None => r is None,
        },
{
    let ghost all = ps@.map_values(|s: String| s@);
    let mut i: usize = 0;
    proof {
        assert(all.skip(0) =~= all);
    }
    while i < ps.len()
        invariant
            0 <= i <= ps@.len(),
            all == ps@.map_values(|s: String| s@),
            first_match(all, rel_path@) == first_match(all.skip(i as int), rel_path@),
        decreases ps@.len() - i,
    {
        proof {
            assert(all.skip(i as int)[0] == ps@[i as int]@);
            assert(all.skip(i as int).drop_first() =~= all.skip(i + 1));
        }
        if starts_with_exec(rel_path, ps[i].as_str()) {
            return Some(&ps[i]);
        }
        i = i + 1;
    }
    None
}

/// Determine the spec directory for new documents.  `project_prefixes`
/// holds, for each configured project, the fixed prefixes of its path
/// patterns; `rel_path` is the current file's path relative to the project
/// root, if it lies under it.
pub fn resolve_spec_dir(project_prefixes: Option<&[Vec<String>]>, rel_path: Option<&str>) -> (r: Option<String>)
    ensures
        opt_chars_string(r) == spec_dir_for(prefixes_view(project_prefixes), opt_chars(rel_path)),
{
    proof {
        reveal_strlit("specs/");
    }
    let projects = match project_prefixes {
        Some(p) => p,
        None => {
            return Some(String::from_str("specs/"));
        },
    };
    if projects.len() == 0 {
        return Some(String::from_str("specs/"));
    }
    let rp = match rel_path {
        Some(r) => r,
        None => {
            return None;
        },
    };
    let ghost view = projects@.map_values(|ps: Vec<String>| ps@.map_values(|s: String| s@));
    let mut dirs: Vec<&String> = Vec::new();
    let mut i: usize = 0;
    while i < projects.len()
        invariant
            0 <= i <= projects@.len(),
            view == projects@.map_values(|ps: Vec<String>| ps@.map_values(|s: String| s@)),
            dirs@.map_values(|s: &String| s@) == matching_dirs(view.take(i as int), rp@),
        decreases projects@.len() - i,
    {
        proof {
            assert(view.take(i + 1).drop_last() =~= view.take(i as int));
            assert(view.take(i + 1).last() == view[i as int]);
        }
        let ghost before = dirs@;
        match first_match_exec(&projects[i], rp) {
            Some(p) => {
                dirs.push(p);
                proof {
                    assert(dirs@.map_values(|s: &String| s@) =~= before.map_values(|s: &String| s@).push(p@));
                }
            },
            None => {},
        }
        i = i + 1;
    }
    proof {
        assert(view.take(projects@.len() as int) =~= view);
    }
    if dirs.len() == 1 {
        proof {
            assert(dirs@.map_values(|s: &String| s@)[0] == dirs@[0]@);
        }
        Some(dirs[0].clone())
    } else {
        None
    }
}

/// The characters of an optional string.
pub open spec fn opt_chars_string(o: Option<String>) -> Option<Seq<char>> {
    match o {
        Some(s) => Some(s@),
        None => None,
    }
}

} // verus!
