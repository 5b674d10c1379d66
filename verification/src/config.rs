//! What indexing reads of the project configuration: where the spec files
//! are.

use vstd::prelude::*;
use crate::sorting::str_views;

verus! {

/// The path globs of the configuration: the top-level `paths`, and those
/// of each configured project, in the order the projects are listed.
#[derive(Debug, Clone, PartialEq, Eq)]
pub struct Config {
    pub paths: Option<Vec<String>>,
    pub projects: Option<Vec<Vec<String>>>,
}

impl Default for Config {
    fn default() -> (r: Config)
        ensures
            r.paths is None,
            r.projects is None,
    {
        Config { paths: None, projects: None }
    }
}

/// The characters of each string.
pub open spec fn string_views(v: Seq<String>) -> Seq<Seq<char>> {
    v.map_values(|s: String| s@)
}

/// The globs of `projects`, one project after the other.
pub open spec fn project_globs(projects: Seq<Vec<String>>) -> Seq<Seq<char>>
    decreases projects.len(),
{
    if projects.len() == 0 {
        Seq::empty()
    } else {
        project_globs(projects.drop_last()) + string_views(projects.last()@)
    }
}

/// The globs that select the spec files: the top-level ones when there are
/// any, else those of every project, else none.
pub open spec fn config_globs(config: Config) -> Seq<Seq<char>> {
    match config.paths {
        Some(p) => string_views(p@),
        None => match config.projects {
            Some(ps) => project_globs(ps@),
            None => Seq::empty(),
        },
    }
}

/// Append the characters of each of `v` to `out`.
fn push_all<'a>(out: &mut Vec<&'a str>, v: &'a Vec<String>)
    ensures
        str_views(final(out)@) == str_views(old(out)@) + string_views(v@),
{
    let ghost start = str_views(out@);
    let mut i: usize = 0;
    while i < v.len()
        invariant
            0 <= i <= v@.len(),
            str_views(out@) == start + string_views(v@.take(i as int)),
        decreases v@.len() - i,
    {
        let ghost before = out@;
        out.push(v[i].as_str());
        proof {
            assert(str_views(out@) =~= str_views(before).push(v@[i as int]@));
            assert(string_views(v@.take(i + 1)) =~= string_views(v@.take(i as int)).push(v@[i as int]@));
        }
        i = i + 1;
    }
    proof {
        assert(v@.take(v@.len() as int) =~= v@);
    }
}

/// The path globs that select the spec files of the project.
pub fn collect_globs(config: &Config) -> (r: Vec<&str>)
    ensures
        str_views(r@) == config_globs(*config),
{
    let mut out: Vec<&str> = Vec::new();
    proof {
        assert(str_views(out@) =~= Seq::<Seq<char>>::empty());
    }
    match &config.paths {
        Some(p) => {
            push_all(&mut out, p);
            proof {
                assert(Seq::<Seq<char>>::empty() + string_views(p@) =~= string_views(p@));
            }
        },
        None => match &config.projects {
            Some(ps) => {
                let mut k: usize = 0;
                while k < ps.len()
                    invariant
                        0 <= k <= ps@.len(),
                        str_views(out@) == project_globs(ps@.take(k as int)),
                    decreases ps@.len() - k,
                {
                    push_all(&mut out, &ps[k]);
                    proof {
                        assert(ps@.take(k + 1).drop_last() =~= ps@.take(k as int));
                    }
                    k = k + 1;
                }
                proof {
                    assert(ps@.take(ps@.len() as int) =~= ps@);
                }
            },
            None => {},
        },
    }
    out
}

} // verus!
