//! Code lenses above a spec document's frontmatter, its acceptance
//! criteria and each criterion: reference counts, verification status and
//! coverage percentages.

use vstd::prelude::*;
use vstd::seq_lib::seq_to_set_distributes_over_add;
use vstd::string::{StringExecFns, StringSliceAdditionalSpecFns};
use crate::position::{pred_sat, raw_to_lsp, zero_range, Position, Range};
use crate::frontmatter::{is_delim, is_delim_exec, lemma_line_index_bound};
use crate::numerals::{decimal, push_decimal};
use crate::text::{
    lemma_line_start_none_after, lemma_next_nl_bounds, line_at_exec, line_end, line_start,
    matches_at, matches_at_exec, nth_line, same_str, skip_ws, skip_ws_back, skip_ws_back_exec,
    skip_ws_exec,
};
use crate::tokens::{id_key, id_key_spec};

verus! {

/// The component name of an acceptance-criteria block.
pub const ACCEPTANCE_CRITERIA: &'static str = "AcceptanceCriteria";

/// The component name of a single criterion.
pub const CRITERION: &'static str = "Criterion";

/// A component of a spec document, as far as the server reads it: its
/// name, its `id` and `refs` attributes, its 1-based line and its
/// children.
#[derive(Debug)]
pub struct Component {
    pub name: String,
    pub id: Option<String>,
    pub refs: Option<String>,
    pub line: usize,
    pub children: Vec<Component>,
}

// ---------------------------------------------------------------------------
// Criterion IDs
// ---------------------------------------------------------------------------

/// The criterion IDs of a component and its descendants, in document order.
pub open spec fn comp_criteria(c: Component) -> Seq<String>
    decreases c,
{
    (if c.name@ == CRITERION@ && c.id is Some {
        seq![c.id.unwrap()]
    } else {
        Seq::empty()
    }) + list_criteria(c.children@)
}

/// The criterion IDs of a list of components and their descendants, in
/// document order.
pub open spec fn list_criteria(cs: Seq<Component>) -> Seq<String>
    decreases cs,
{
    if cs.len() == 0 {
        Seq::empty()
    } else {
        list_criteria(cs.drop_last()) + comp_criteria(cs.last())
    }
}

/// Append the criterion IDs of `components` and their descendants to
/// `ids`, in document order.
pub fn collect_criterion_ids(components: &[Component], ids: &mut Vec<String>)
    ensures
        final(ids)@ == old(ids)@ + list_criteria(components@),
    decreases components@,
{
    let ghost start = ids@;
    let mut i: usize = 0;
    while i < components.len()
        invariant
            0 <= i <= components@.len(),
            ids@ == start + list_criteria(components@.take(i as int)),
        decreases components@.len() - i,
    {
        let comp = &components[i];
        proof {
            assert(components@.take(i + 1).drop_last() =~= components@.take(i as int));
            assert(components@.take(i + 1).last() == components@[i as int]);
        }
        let ghost before = ids@;
        if same_str(comp.name.as_str(), CRITERION) {
            match &comp.id {
                Some(id) => {
                    ids.push(id.clone());
                },
                None => {},
            }
        }
        let ghost mid = ids@;
        proof {
            assert(mid =~= before + (if comp.name@ == CRITERION@ && comp.id is Some {
                seq![comp.id.unwrap()]
            } else {
                Seq::empty()
            }));
        }
        collect_criterion_ids(comp.children.as_slice(), ids);
        proof {
            assert(list_criteria(components@.take(i + 1)) == list_criteria(components@.take(i as int))
                + comp_criteria(components@[i as int]));
            assert(ids@ =~= start + list_criteria(components@.take(i + 1)));
        }
        i = i + 1;
    }
    proof {
        assert(components@.take(components@.len() as int) =~= components@);
    }
}

// ---------------------------------------------------------------------------
// The frontmatter `id:` line
// ---------------------------------------------------------------------------

/// The window `[s, e)`, trimmed, starts with `n`.
pub open spec fn trimmed_starts_with(b: Seq<u8>, s: int, e: int, n: Seq<u8>) -> bool {
    let p = skip_ws(b, s, e);
    let q = skip_ws_back(b, p, e);
    p + n.len() <= q && matches_at(b, p, n)
}

/// The 1-based line of the frontmatter `id:` key, scanning from line `k`:
/// the frontmatter opens with a `---` first line and ends at the next
/// `---` line; 1 when there is no such key.
pub open spec fn id_line_from(b: Seq<u8>, k: nat, in_fm: bool) -> nat
    decreases b.len() - k,
{
    if k >= b.len() {
        1
    } else {
        match nth_line(b, k) {
            None => 1,
            Some((s, e)) => if is_delim(b, s, e) {
                if in_fm {
                    1
                } else {
                    id_line_from(b, k + 1, k == 0)
                }
            } else if in_fm && trimmed_starts_with(b, s, e, id_key_spec()) {
                (k + 1) as nat
            } else {
                id_line_from(b, k + 1, in_fm)
            },
        }
    }
}

proof fn lemma_id_line_none(b: Seq<u8>, k: nat, in_fm: bool)
    requires
        line_start(b, k) is None,
    ensures
        id_line_from(b, k, in_fm) == 1,
{
}

/// The 1-based line of the `id:` field in the YAML frontmatter; 1 when
/// there is none.
pub fn find_frontmatter_id_line(content: &str) -> (r: usize)
    ensures
        r == id_line_from(content.spec_bytes(), 0, false),
{
    let b = content.as_bytes();
    if b.len() == 0 {
        return 1;
    }
    let key = id_key();
    let mut in_fm = false;
    let mut k: usize = 0;
    let mut st: usize = 0;
    loop
        invariant
            st < b@.len(),
            k <= st,
            b@ == content.spec_bytes(),
            key@ == id_key_spec(),
            line_start(b@, k as nat) == Some(st as int),
            id_line_from(b@, 0, false) == id_line_from(b@, k as nat, in_fm),
        decreases b@.len() - k,
    {
        let (e, next) = line_at_exec(b, st);
        let p = skip_ws_exec(b, st, e);
        let q = skip_ws_back_exec(b, p, e);
        if is_delim_exec(b, st, e) {
            if in_fm {
                return 1;
            }
            if k == 0 {
                in_fm = true;
            }
        } else if in_fm && q - p >= 3 && matches_at_exec(b, p, key.as_slice()) {
            return k + 1;
        }
        match next {
            Some(t) => {
                proof {
                    lemma_next_nl_bounds(b@, st as int);
                }
                st = t;
                k = k + 1;
            },
            None => {
                proof {
                    lemma_id_line_none(b@, (k + 1) as nat, in_fm);
                }
                return 1;
            },
        }
    }
}

// ---------------------------------------------------------------------------
// Labels
// ---------------------------------------------------------------------------

/// `word`, or its plural `references`/`tests` when `count` is not 1.
pub open spec fn plural_of(word: Seq<char>, count: int) -> Seq<char> {
    if count == 1 {
        word
    } else if word == "reference"@ {
        "references"@
    } else if word == "test"@ {
        "tests"@
    } else {
        word
    }
}

/// The word to show next to a count: `reference` and `test` take their
/// plural form unless the count is 1.
pub fn pluralize<'a>(word: &'a str, count: usize) -> (r: &'a str)
    ensures
        r@ == plural_of(word@, count as int),
{
    if count == 1 {
        return word;
    }
    if same_str(word, "reference") {
        "references"
    } else if same_str(word, "test") {
        "tests"
    } else {
        word
    }
}

/// `n` followed by `word`, pluralised: `3 references`.
pub open spec fn count_label(n: nat, word: Seq<char>) -> Seq<char> {
    decimal(n) + " "@ + plural_of(word, n as int)
}

/// `v/t criteria verified (p%)` with `p` the percentage rounded down.
pub open spec fn coverage_label(v: nat, t: nat) -> Seq<char> {
    decimal(v) + "/"@ + decimal(t) + " criteria verified ("@ + decimal(v * 100 / t) + "%)"@
}

/// [`count_label`], written out.
fn count_label_exec(n: usize, word: &str) -> (r: String)
    ensures
        r@ == count_label(n as nat, word@),
{
    let mut s = String::new();
    push_decimal(&mut s, n as u128);
    s.append(" ");
    s.append(pluralize(word, n));
    proof {
        assert(s@ =~= count_label(n as nat, word@));
    }
    s
}

/// [`coverage_label`], written out.
fn coverage_label_exec(v: usize, t: usize) -> (r: String)
    requires
        0 < t,
        v <= t,
        t * 100 <= usize::MAX,
    ensures
        r@ == coverage_label(v as nat, t as nat),
{
    let pct = v * 100 / t;
    let mut s = String::new();
    push_decimal(&mut s, v as u128);
    s.append("/");
    push_decimal(&mut s, t as u128);
    s.append(" criteria verified (");
    push_decimal(&mut s, pct as u128);
    s.append("%)");
    proof {
        assert(s@ =~= coverage_label(v as nat, t as nat));
    }
    s
}

// ---------------------------------------------------------------------------
// What the graph and the evidence say about the document
// ---------------------------------------------------------------------------

/// The documents whose refs point at one criterion of the document.
#[derive(Debug, Clone, PartialEq, Eq)]
pub struct CriterionRefs {
    pub criterion: String,
    pub docs: Vec<String>,
}

/// The documents that point at the document: through refs to the document
/// itself, refs to each of its criteria, `Implements` and `DependsOn`.
#[derive(Debug, Clone, PartialEq, Eq)]
pub struct DocumentLinks {
    pub doc_refs: Vec<String>,
    pub criterion_refs: Vec<CriterionRefs>,
    pub implemented_by: Vec<String>,
    pub depended_on_by: Vec<String>,
}

/// The number of pieces of verification evidence for one criterion of the
/// document.
#[derive(Debug, Clone, PartialEq, Eq)]
pub struct CriterionEvidence {
    pub criterion: String,
    pub count: usize,
}

/// Index of the first refs entry at or after `k` for criterion `c`.
pub open spec fn refs_entry_from(rs: Seq<CriterionRefs>, c: Seq<char>, k: int) -> Option<int>
    decreases rs.len() - k,
{
    if k < 0 || k >= rs.len() {
        None
    } else if rs[k].criterion@ == c {
        Some(k)
    } else {
        refs_entry_from(rs, c, k + 1)
    }
}

/// The documents whose refs point at criterion `c`.
pub open spec fn criterion_refs(links: DocumentLinks, c: Seq<char>) -> Seq<String> {
    match refs_entry_from(links.criterion_refs@, c, 0) {
        Some(k) => links.criterion_refs@[k].docs@,
        None => Seq::empty(),
    }
}

/// Index of the first evidence entry at or after `k` for criterion `c`.
pub open spec fn evidence_entry_from(ev: Seq<CriterionEvidence>, c: Seq<char>, k: int) -> Option<int>
    decreases ev.len() - k,
{
    if k < 0 || k >= ev.len() {
        None
    } else if ev[k].criterion@ == c {
        Some(k)
    } else {
        evidence_entry_from(ev, c, k + 1)
    }
}

/// The number of pieces of evidence for criterion `c`.
pub open spec fn evidence_count(ev: Seq<CriterionEvidence>, c: Seq<char>) -> nat {
    match evidence_entry_from(ev, c, 0) {
        Some(k) => ev[k].count as nat,
        None => 0,
    }
}

/// How many of `ids` have evidence.
pub open spec fn verified_count(ids: Seq<String>, ev: Seq<CriterionEvidence>) -> nat
    decreases ids.len(),
{
    if ids.len() == 0 {
        0
    } else {
        verified_count(ids.drop_last(), ev) + if evidence_count(ev, ids.last()@) > 0 {
            1nat
        } else {
            0nat
        }
    }
}

proof fn lemma_verified_count_bound(ids: Seq<String>, ev: Seq<CriterionEvidence>)
    ensures
        verified_count(ids, ev) <= ids.len(),
    decreases ids.len(),
{
    if ids.len() > 0 {
        lemma_verified_count_bound(ids.drop_last(), ev);
    }
}

/// The coverage that a lens reports never exceeds 100%: no more criteria
/// are verified than there are.
pub proof fn law_coverage_at_most_full(ids: Seq<String>, ev: Seq<CriterionEvidence>)
    requires
        ids.len() > 0,
    ensures
        verified_count(ids, ev) <= ids.len(),
        verified_count(ids, ev) * 100 / ids.len() <= 100,
{
    lemma_verified_count_bound(ids, ev);
    let v = verified_count(ids, ev);
    let t = ids.len();
    assert(v * 100 / t <= 100) by (nonlinear_arith)
        requires
            0 <= v <= t,
            t > 0,
    {
        assert(v * 100 <= t * 100);
        assert((t * 100) / t == 100);
    }
}

/// The documents whose refs point at criterion `c`.
fn lookup_criterion_refs<'a>(links: &'a DocumentLinks, c: &str) -> (r: Option<&'a Vec<String>>)
    ensures
        match r {
            Some(v) => v@ == criterion_refs(*links, c@),
            None => criterion_refs(*links, c@) == Seq::<String>::empty(),
        },
{
    let mut k: usize = 0;
    while k < links.criterion_refs.len()
        invariant
            0 <= k <= links.criterion_refs@.len(),
            refs_entry_from(links.criterion_refs@, c@, 0) == refs_entry_from(
                links.criterion_refs@,
                c@,
                k as int,
            ),
        decreases links.criterion_refs@.len() - k,
    {
        if same_str(links.criterion_refs[k].criterion.as_str(), c) {
            return Some(&links.criterion_refs[k].docs);
        }
        k = k + 1;
    }
    None
}

/// The number of pieces of evidence for criterion `c`.
fn lookup_evidence(ev: &[CriterionEvidence], c: &str) -> (r: usize)
    ensures
        r == evidence_count(ev@, c@),
{
    let mut k: usize = 0;
    while k < ev.len()
        invariant
            0 <= k <= ev@.len(),
            evidence_entry_from(ev@, c@, 0) == evidence_entry_from(ev@, c@, k as int),
        decreases ev@.len() - k,
    {
        if same_str(ev[k].criterion.as_str(), c) {
            return ev[k].count;
        }
        k = k + 1;
    }
    0
}

/// The number of criteria and how many of them are verified; none are
/// without verification data.
pub fn document_coverage(criterion_ids: &[String], evidence: Option<&[CriterionEvidence]>) -> (r: (
    usize,
    usize,
))
    ensures
        r.0 == criterion_ids@.len(),
        r.1 == match evidence {
            Some(e) => verified_count(criterion_ids@, e@),
            None => 0,
        },
{
    let total = criterion_ids.len();
    let ev = match evidence {
        Some(e) => e,
        None => {
            return (total, 0);
        },
    };
    let mut verified: usize = 0;
    let mut i: usize = 0;
    while i < criterion_ids.len()
        invariant
            0 <= i <= criterion_ids@.len(),
            verified == verified_count(criterion_ids@.take(i as int), ev@),
            verified <= i,
        decreases criterion_ids@.len() - i,
    {
        proof {
            assert(criterion_ids@.take(i + 1).drop_last() =~= criterion_ids@.take(i as int));
        }
        if lookup_evidence(ev, criterion_ids[i].as_str()) > 0 {
            verified = verified + 1;
        }
        i = i + 1;
    }
    proof {
        assert(criterion_ids@.take(criterion_ids@.len() as int) =~= criterion_ids@);
    }
    (total, verified)
}

// ---------------------------------------------------------------------------
// Lenses
// ---------------------------------------------------------------------------

/// What clicking a lens does.
#[derive(Debug, Clone, PartialEq, Eq)]
pub enum LensCommand {
    /// Display only.
    Noop { title: String },
    /// Show the references of the position in the file at `path`.
    FindReferences { title: String, path: String, position: Position },
}

/// A code lens: where it stands and its command.
#[derive(Debug, Clone, PartialEq, Eq)]
pub struct CodeLens {
    pub range: Range,
    pub command: LensCommand,
}

/// A lens as the specification sees it: its 1-based line, its title, and
/// whether it finds references.
pub struct LensSpec {
    pub line: usize,
    pub title: Seq<char>,
    pub find_refs: bool,
}

/// `l` is the lens `t` in the file at `path`, at the start of its line.
pub open spec fn lens_is(l: CodeLens, t: LensSpec, path: Seq<char>) -> bool {
    let pos = Position { line: pred_sat(t.line as int) as u32, character: 0 };
    &&& l.range == Range { start: pos, end: pos }
    &&& match l.command {
        LensCommand::Noop { title } => !t.find_refs && title@ == t.title,
        LensCommand::FindReferences { title, path: p, position } => t.find_refs && title@ == t.title
            && p@ == path && position == pos,
    }
}

/// The title of a criterion's lens, given its reference count, whether
/// verification data exists, and its evidence count; `None` for no lens.
pub open spec fn criterion_title(refs: nat, verify: bool, evidence: nat) -> Option<Seq<char>> {
    if refs > 0 {
        if verify {
            if evidence > 0 {
                Some(
                    count_label(refs, "reference"@) + " | verified ("@ + count_label(evidence, "test"@)
                        + ")"@,
                )
            } else {
                Some(count_label(refs, "reference"@) + " | not verified"@)
            }
        } else {
            Some(count_label(refs, "reference"@))
        }
    } else if verify {
        if evidence > 0 {
            Some("verified ("@ + count_label(evidence, "test"@) + ")"@)
        } else {
            Some("not verified"@)
        }
    } else {
        None
    }
}

/// The lens of one component, without its children: coverage over an
/// acceptance-criteria block's criteria when verification data exists,
/// and references and verification of a criterion with an ID.
pub open spec fn component_lens(
    c: Component,
    links: DocumentLinks,
    ev: Option<Seq<CriterionEvidence>>,
) -> Seq<LensSpec> {
    if c.name@ == ACCEPTANCE_CRITERIA@ {
        match ev {
            Some(e) => {
                let ids = list_criteria(c.children@);
                if ids.len() > 0 {
                    seq![
                        LensSpec {
                            line: c.line,
                            title: coverage_label(verified_count(ids, e), ids.len()),
                            find_refs: false,
                        },
                    ]
                } else {
                    Seq::empty()
                }
            },
            None => Seq::empty(),
        }
    } else if c.name@ == CRITERION@ && c.id is Some {
        let id = c.id.unwrap()@;
        let refs = criterion_refs(links, id).len();
        let evidence = match ev {
            Some(e) => evidence_count(e, id),
            None => 0,
        };
        match criterion_title(refs, ev is Some, evidence) {
            Some(t) => seq![LensSpec { line: c.line, title: t, find_refs: refs > 0 }],
            None => Seq::empty(),
        }
    } else {
        Seq::empty()
    }
}

/// The lenses of a component and its descendants, in document order.
pub open spec fn comp_lenses(
    c: Component,
    links: DocumentLinks,
    ev: Option<Seq<CriterionEvidence>>,
) -> Seq<LensSpec>
    decreases c,
{
    component_lens(c, links, ev) + list_lenses(c.children@, links, ev)
}

/// The lenses of a list of components and their descendants.
pub open spec fn list_lenses(
    cs: Seq<Component>,
    links: DocumentLinks,
    ev: Option<Seq<CriterionEvidence>>,
) -> Seq<LensSpec>
    decreases cs,
{
    if cs.len() == 0 {
        Seq::empty()
    } else {
        list_lenses(cs.drop_last(), links, ev) + comp_lenses(cs.last(), links, ev)
    }
}

/// `ls` from `from` on are the lenses `t`, and nothing before changed.
pub open spec fn lenses_extend(
    ls: Seq<CodeLens>,
    old_ls: Seq<CodeLens>,
    t: Seq<LensSpec>,
    path: Seq<char>,
) -> bool {
    &&& ls.len() == old_ls.len() + t.len()
    &&& forall|i: int| 0 <= i < old_ls.len() ==> ls[i] == old_ls[i]
    &&& forall|i: int| 0 <= i < t.len() ==> lens_is(#[trigger] ls[old_ls.len() + i], t[i], path)
}

/// The criteria of the components fit percentage arithmetic.
pub open spec fn criteria_fit(cs: Seq<Component>) -> bool {
    list_criteria(cs).len() * 100 <= usize::MAX
}

proof fn lemma_criteria_part(cs: Seq<Component>, i: int)
    requires
        0 <= i < cs.len(),
    ensures
        comp_criteria(cs[i]).len() <= list_criteria(cs).len(),
        list_criteria(cs[i].children@).len() <= list_criteria(cs).len(),
    decreases cs.len(),
{
    if i < cs.len() - 1 {
        assert(cs.drop_last()[i] == cs[i]);
        lemma_criteria_part(cs.drop_last(), i);
    }
}

/// A display-only command.
pub fn noop_command(title: String) -> (r: LensCommand)
    ensures
        r == (LensCommand::Noop { title }),
{
    LensCommand::Noop { title }
}

/// A command that shows the references of `range`'s start in the file at
/// `path`.
pub fn find_references_command(title: &str, path: &str, range: Range) -> (r: LensCommand)
    ensures
        r matches LensCommand::FindReferences { title: t, path: p, position } && t@ == title@ && p@
            == path@ && position == range.start,
{
    LensCommand::FindReferences {
        title: String::from_str(title),
        path: String::from_str(path),
        position: range.start,
    }
}

/// Append the acceptance-criteria and criterion lenses of `components` and
/// their descendants to `lenses`, in document order.
pub fn walk_components(
    components: &[Component],
    path: &str,
    links: &DocumentLinks,
    evidence: Option<&[CriterionEvidence]>,
    lenses: &mut Vec<CodeLens>,
)
    requires
        criteria_fit(components@),
    ensures
        lenses_extend(
            final(lenses)@,
            old(lenses)@,
            list_lenses(components@, *links, opt_evidence(evidence)),
            path@,
        ),
    decreases components@,
{
    let ghost start = lenses@;
    let ghost ev = opt_evidence(evidence);
    let mut i: usize = 0;
    while i < components.len()
        invariant
            0 <= i <= components@.len(),
            criteria_fit(components@),
            ev == opt_evidence(evidence),
            lenses_extend(lenses@, start, list_lenses(components@.take(i as int), *links, ev), path@),
        decreases components@.len() - i,
    {
        let comp = &components[i];
        proof {
            assert(components@.take(i + 1).drop_last() =~= components@.take(i as int));
            assert(components@.take(i + 1).last() == components@[i as int]);
            lemma_criteria_part(components@, i as int);
        }
        let ghost before = lenses@;
        let ghost own = component_lens(*comp, *links, ev);
        if same_str(comp.name.as_str(), ACCEPTANCE_CRITERIA) {
            match evidence {
                Some(ev_slice) => {
                    let mut child_ids: Vec<String> = Vec::new();
                    collect_criterion_ids(comp.children.as_slice(), &mut child_ids);
                    let (total, verified) = document_coverage(child_ids.as_slice(), Some(ev_slice));
                    if total > 0 {
                        proof {
                            assert(child_ids@ =~= list_criteria(comp.children@));
                            lemma_verified_count_bound(child_ids@, ev_slice@);
                        }
                        let title = coverage_label_exec(verified, total);
                        let range = zero_range(raw_to_lsp(comp.line, 0));
                        lenses.push(CodeLens { range, command: noop_command(title) });
                    } else {
                        proof {
                            assert(child_ids@ =~= list_criteria(comp.children@));
                        }
                    }
                },
                None => {},
            }
        } else if same_str(comp.name.as_str(), CRITERION) {
            match &comp.id {
                Some(crit_id) => {
                    let ref_count = match lookup_criterion_refs(links, crit_id.as_str()) {
                        Some(v) => v.len(),
                        None => 0,
                    };
                    let evidence_count = match evidence {
                        Some(e) => lookup_evidence(e, crit_id.as_str()),
                        None => 0,
                    };
                    let has_refs = ref_count > 0;
                    let has_evidence = evidence_count > 0;
                    let has_verify_data = evidence.is_some();
                    let title = if has_refs {
                        let mut t = count_label_exec(ref_count, "reference");
                        if has_verify_data {
                            if has_evidence {
                                t.append(" | verified (");
                                t.append(count_label_exec(evidence_count, "test").as_str());
                                t.append(")");
                            } else {
                                t.append(" | not verified");
                            }
                        }
                        Some(t)
                    } else if has_verify_data {
                        if has_evidence {
                            let mut t = String::from_str("verified (");
                            t.append(count_label_exec(evidence_count, "test").as_str());
                            t.append(")");
                            Some(t)
                        } else {
                            Some(String::from_str("not verified"))
                        }
                    } else {
                        None
                    };
                    match title {
                        Some(title) => {
                            let range = zero_range(raw_to_lsp(comp.line, 0));
                            let command = if has_refs {
                                find_references_command(title.as_str(), path, range)
                            } else {
                                noop_command(title)
                            };
                            lenses.push(CodeLens { range, command });
                        },
                        None => {},
                    }
                },
                None => {},
            }
        }
        let ghost mid = lenses@;
        proof {
            assert(lenses_extend(mid, before, own, path@));
        }
        walk_components(comp.children.as_slice(), path, links, evidence, lenses);
        proof {
            let whole = list_lenses(components@.take(i + 1), *links, ev);
            let prev = list_lenses(components@.take(i as int), *links, ev);
            let sub = list_lenses(comp.children@, *links, ev);
            assert(whole == prev + comp_lenses(components@[i as int], *links, ev));
            assert(comp_lenses(components@[i as int], *links, ev) == own + sub);
            assert(whole =~= prev + (own + sub));
            assert forall|j: int| 0 <= j < whole.len() implies lens_is(
                #[trigger] lenses@[start.len() + j],
                whole[j],
                path@,
            ) by {
                if j < prev.len() {
                    assert(lenses@[start.len() + j] == before[start.len() + j]);
                } else if j < prev.len() + own.len() {
                    assert(lenses@[start.len() + j] == mid[before.len() + (j - prev.len())]);
                } else {
                    assert(lenses@[start.len() + j] == lenses@[mid.len() + (j - prev.len() - own.len())]);
                }
            }
        }
        i = i + 1;
    }
    proof {
        assert(components@.take(components@.len() as int) =~= components@);
    }
}

/// The evidence as a sequence, if any.
pub open spec fn opt_evidence(e: Option<&[CriterionEvidence]>) -> Option<Seq<CriterionEvidence>> {
    match e {
        Some(s) => Some(s@),
        None => None,
    }
}

// ---------------------------------------------------------------------------
// Referencing documents
// ---------------------------------------------------------------------------

/// The characters of each string.
pub open spec fn views(s: Seq<String>) -> Seq<Seq<char>> {
    s.map_values(|x: String| x@)
}

/// The documents referencing each of `ids`, in order.
pub open spec fn criteria_refs_views(links: DocumentLinks, ids: Seq<String>) -> Seq<Seq<char>>
    decreases ids.len(),
{
    if ids.len() == 0 {
        Seq::empty()
    } else {
        criteria_refs_views(links, ids.drop_last()) + views(criterion_refs(links, ids.last()@))
    }
}

/// The distinct documents that point at the document or at one of its
/// criteria `ids`.
pub open spec fn referencing_docs(links: DocumentLinks, ids: Seq<String>) -> Set<Seq<char>> {
    (views(links.doc_refs@) + criteria_refs_views(links, ids) + views(links.implemented_by@) + views(
        links.depended_on_by@,
    )).to_set()
}

/// Whether `x` is one of `v`.
fn contains_str(v: &Vec<String>, x: &str) -> (r: bool)
    ensures
        r == views(v@).contains(x@),
{
    let mut i: usize = 0;
    while i < v.len()
        invariant
            0 <= i <= v@.len(),
            forall|j: int| 0 <= j < i ==> v@[j]@ != x@,
        decreases v@.len() - i,
    {
        if same_str(v[i].as_str(), x) {
            proof {
                assert(views(v@)[i as int] == x@);
            }
            return true;
        }
        i = i + 1;
    }
    proof {
        if views(v@).contains(x@) {
            let j = choose|j: int| 0 <= j < views(v@).len() && views(v@)[j] == x@;
            assert(v@[j]@ == x@);
        }
    }
    false
}

/// Add to `seen` the strings of `items` it does not have yet.
fn add_distinct(seen: &mut Vec<String>, items: &Vec<String>)
    requires
        views(old(seen)@).no_duplicates(),
    ensures
        views(final(seen)@).no_duplicates(),
        views(final(seen)@).to_set() == views(old(seen)@).to_set() + views(items@).to_set(),
{
    let ghost start = seen@;
    let mut k: usize = 0;
    while k < items.len()
        invariant
            0 <= k <= items@.len(),
            views(seen@).no_duplicates(),
            views(seen@).to_set() == views(start).to_set() + views(items@.take(k as int)).to_set(),
        decreases items@.len() - k,
    {
        let x = &items[k];
        proof {
            assert(views(items@.take(k + 1)) =~= views(items@.take(k as int)).push(x@));
            views(items@.take(k as int)).lemma_push_to_set_commute(x@);
        }
        if !contains_str(seen, x.as_str()) {
            let ghost before = seen@;
            seen.push(x.clone());
            proof {
                assert(views(seen@) =~= views(before).push(x@));
                views(before).lemma_push_to_set_commute(x@);
                assert(views(seen@).to_set() =~= views(start).to_set() + views(items@.take(k + 1)).to_set());
            }
        } else {
            proof {
                assert(views(seen@).to_set() =~= views(start).to_set() + views(items@.take(k + 1)).to_set());
            }
        }
        k = k + 1;
    }
    proof {
        assert(items@.take(items@.len() as int) =~= items@);
    }
}

/// The number of distinct documents that reference the document or one of
/// its criteria `criterion_ids`, implement it or depend on it.
pub fn document_reference_count(links: &DocumentLinks, criterion_ids: &[String]) -> (r: usize)
    ensures
        r == referencing_docs(*links, criterion_ids@).len(),
{
    let mut seen: Vec<String> = Vec::new();
    proof {
        assert(views(seen@) =~= Seq::<Seq<char>>::empty());
    }
    add_distinct(&mut seen, &links.doc_refs);
    let empty: Vec<String> = Vec::new();
    let mut i: usize = 0;
    while i < criterion_ids.len()
        invariant
            0 <= i <= criterion_ids@.len(),
            empty@.len() == 0,
            views(seen@).no_duplicates(),
            views(seen@).to_set() == views(links.doc_refs@).to_set() + criteria_refs_views(
                *links,
                criterion_ids@.take(i as int),
            ).to_set(),
        decreases criterion_ids@.len() - i,
    {
        let refs = match lookup_criterion_refs(links, criterion_ids[i].as_str()) {
            Some(v) => v,
            None => &empty,
        };
        proof {
            assert(criterion_ids@.take(i + 1).drop_last() =~= criterion_ids@.take(i as int));
            assert(views(empty@) =~= views(Seq::<String>::empty()));
            seq_to_set_distributes_over_add(
                criteria_refs_views(*links, criterion_ids@.take(i as int)),
                views(refs@),
            );
        }
        add_distinct(&mut seen, refs);
        proof {
            assert(views(seen@).to_set() =~= views(links.doc_refs@).to_set() + criteria_refs_views(
                *links,
                criterion_ids@.take(i + 1),
            ).to_set());
        }
        i = i + 1;
    }
    add_distinct(&mut seen, &links.implemented_by);
    add_distinct(&mut seen, &links.depended_on_by);
    proof {
        assert(criterion_ids@.take(criterion_ids@.len() as int) =~= criterion_ids@);
        let a = views(links.doc_refs@);
        let b = criteria_refs_views(*links, criterion_ids@);
        let c = views(links.implemented_by@);
        let d = views(links.depended_on_by@);
        seq_to_set_distributes_over_add(a, b);
        seq_to_set_distributes_over_add(a + b, c);
        seq_to_set_distributes_over_add(a + b + c, d);
        assert(views(seen@).to_set() =~= referencing_docs(*links, criterion_ids@));
        views(seen@).unique_seq_to_set();
    }
    seen.len()
}

// ---------------------------------------------------------------------------
// All lenses of a document
// ---------------------------------------------------------------------------

/// The title of the document lens: the referencing documents, then the
/// coverage when there are criteria and verification data; `None` when
/// there is neither.
pub open spec fn document_title(refs: nat, verified: nat, total: nat, verify: bool) -> Option<Seq<char>> {
    let coverage = total > 0 && verify;
    if refs > 0 && coverage {
        Some(count_label(refs, "reference"@) + " | "@ + coverage_label(verified, total))
    } else if refs > 0 {
        Some(count_label(refs, "reference"@))
    } else if coverage {
        Some(coverage_label(verified, total))
    } else {
        None
    }
}

/// The document lens, on the frontmatter `id:` line.
pub open spec fn document_lens(
    b: Seq<u8>,
    cs: Seq<Component>,
    links: DocumentLinks,
    ev: Option<Seq<CriterionEvidence>>,
) -> Seq<LensSpec> {
    let ids = list_criteria(cs);
    let refs = referencing_docs(links, ids).len();
    let verified = match ev {
        Some(e) => verified_count(ids, e),
        None => 0,
    };
    match document_title(refs, verified, ids.len(), ev is Some) {
        Some(t) => seq![
            LensSpec { line: id_line_from(b, 0, false) as usize, title: t, find_refs: refs > 0 },
        ],
        None => Seq::empty(),
    }
}

proof fn lemma_id_line_bound(b: Seq<u8>, k: nat, in_fm: bool)
    ensures
        1 <= id_line_from(b, k, in_fm) <= b.len() + 1,
    decreases b.len() - k,
{
    if k < b.len() {
        lemma_id_line_bound(b, k + 1, k == 0);
        lemma_id_line_bound(b, k + 1, in_fm);
    }
}

/// All code lenses of a document: the document lens, then the lenses of
/// its components in document order.  `path` is the document's file,
/// `content` its text, `links` what points at it, and `evidence` the
/// verification evidence of its criteria (`None` without verification
/// data).
pub fn build_code_lenses(
    components: &[Component],
    path: &str,
    content: &str,
    links: &DocumentLinks,
    evidence: Option<&[CriterionEvidence]>,
) -> (r: Vec<CodeLens>)
    requires
        criteria_fit(components@),
    ensures
        lenses_extend(
            r@,
            Seq::empty(),
            document_lens(content.spec_bytes(), components@, *links, opt_evidence(evidence))
                + list_lenses(components@, *links, opt_evidence(evidence)),
            path@,
        ),
{
    let mut lenses: Vec<CodeLens> = Vec::new();
    let mut all_ids: Vec<String> = Vec::new();
    collect_criterion_ids(components, &mut all_ids);
    proof {
        assert(all_ids@ =~= list_criteria(components@));
        lemma_id_line_bound(content.spec_bytes(), 0, false);
    }
    let doc_line = find_frontmatter_id_line(content);
    let ref_count = document_reference_count(links, all_ids.as_slice());
    let (total, verified) = document_coverage(all_ids.as_slice(), evidence);
    let has_refs = ref_count > 0;
    let has_coverage = total > 0 && evidence.is_some();
    if has_refs || has_coverage {
        proof {
            if let Some(e) = evidence {
                lemma_verified_count_bound(all_ids@, e@);
            }
        }
        let title = if has_refs && has_coverage {
            let mut t = count_label_exec(ref_count, "reference");
            t.append(" | ");
            t.append(coverage_label_exec(verified, total).as_str());
            t
        } else if has_refs {
            count_label_exec(ref_count, "reference")
        } else {
            coverage_label_exec(verified, total)
        };
        let range = zero_range(raw_to_lsp(doc_line, 0));
        let command = if has_refs {
            find_references_command(title.as_str(), path, range)
        } else {
            noop_command(title)
        };
        lenses.push(CodeLens { range, command });
    }
    let ghost doc_lenses = lenses@;
    proof {
        assert(lenses_extend(
            doc_lenses,
            Seq::empty(),
            document_lens(content.spec_bytes(), components@, *links, opt_evidence(evidence)),
            path@,
        ));
    }
    walk_components(components, path, links, evidence, &mut lenses);
    proof {
        let d = document_lens(content.spec_bytes(), components@, *links, opt_evidence(evidence));
        let w = list_lenses(components@, *links, opt_evidence(evidence));
        assert forall|j: int| 0 <= j < (d + w).len() implies lens_is(
            #[trigger] lenses@[0 + j],
            (d + w)[j],
            path@,
        ) by {
            if j < d.len() {
                assert(lenses@[j] == doc_lenses[j]);
            } else {
                assert(lenses@[j] == lenses@[doc_lenses.len() + (j - d.len())]);
            }
        }
    }
    lenses
}

/// The lens of a criterion with an ID: there is one exactly when the
/// criterion is referenced or verification data exists; it stands on the
/// criterion's line, finds references exactly when there are some, and is
/// titled by its reference count and its verification: "N references |
/// verified (M tests)", "N references | not verified", "N references",
/// "verified (M tests)" or "not verified".
pub proof fn law_criterion_lens(c: Component, links: DocumentLinks, ev: Option<Seq<CriterionEvidence>>)
    requires
        c.name@ == CRITERION@,
        c.id is Some,
    ensures
        ({
            let id = c.id.unwrap()@;
            let refs = criterion_refs(links, id).len();
            let evidence = match ev {
                Some(e) => evidence_count(e, id),
                None => 0,
            };
            let lens = component_lens(c, links, ev);
            &&& (lens.len() == 1) == (refs > 0 || ev is Some)
            &&& lens.len() <= 1
            &&& lens.len() == 1 ==> {
                &&& lens[0].line == c.line
                &&& lens[0].find_refs == (refs > 0)
                &&& (refs > 0 && ev is Some && evidence > 0) ==> lens[0].title == count_label(
                    refs,
                    "reference"@,
                ) + " | verified ("@ + count_label(evidence, "test"@) + ")"@
                &&& (refs > 0 && ev is Some && evidence == 0) ==> lens[0].title == count_label(
                    refs,
                    "reference"@,
                ) + " | not verified"@
                &&& (refs > 0 && ev is None) ==> lens[0].title == count_label(refs, "reference"@)
                &&& (refs == 0 && evidence > 0) ==> lens[0].title == "verified ("@ + count_label(
                    evidence,
                    "test"@,
                ) + ")"@
                &&& (refs == 0 && ev is Some && evidence == 0) ==> lens[0].title == "not verified"@
            }
        }),
{
    reveal_strlit("AcceptanceCriteria");
    reveal_strlit("Criterion");
    assert(c.name@ != ACCEPTANCE_CRITERIA@) by {
        assert(c.name@.len() != ACCEPTANCE_CRITERIA@.len());
    }
}

/// The document lens, which the lenses start with: there is one exactly
/// when some document points at the document or at one of its criteria,
/// or when it has criteria and verification data exists.  It stands on
/// the frontmatter `id:` line, finds references exactly when some document
/// points at it, and is titled by the " | "-join of the reference count
/// and the coverage.
pub proof fn law_document_lens(b: Seq<u8>, cs: Seq<Component>, links: DocumentLinks, ev: Option<Seq<CriterionEvidence>>)
    ensures
        ({
            let ids = list_criteria(cs);
            let refs = referencing_docs(links, ids).len();
            let total = ids.len();
            let verified = match ev {
                Some(e) => verified_count(ids, e),
                None => 0,
            };
            let lens = document_lens(b, cs, links, ev);
            &&& (lens.len() == 1) == (refs > 0 || (total > 0 && ev is Some))
            &&& lens.len() <= 1
            &&& lens.len() == 1 ==> {
                &&& lens[0].line == id_line_from(b, 0, false) as usize
                &&& lens[0].find_refs == (refs > 0)
                &&& (refs > 0 && total > 0 && ev is Some) ==> lens[0].title == count_label(
                    refs,
                    "reference"@,
                ) + " | "@ + coverage_label(verified, total)
                &&& (refs > 0 && !(total > 0 && ev is Some)) ==> lens[0].title == count_label(
                    refs,
                    "reference"@,
                )
                &&& (refs == 0) ==> lens[0].title == coverage_label(verified, total)
            }
        }),
{
    lemma_id_line_bound(b, 0, false);
}

} // verus!
