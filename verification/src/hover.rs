//! The component name under the cursor (a PascalCase word right after `<`
//! or `</`), used by hover, references and rename.

use vstd::prelude::*;
use vstd::string::StringSliceAdditionalSpecFns;
use vstd::utf8::{decode_utf8, encode_utf8, valid_utf8};
use crate::position::{
    char_offset, lemma_char_offset_mono, lemma_char_offset_start, lemma_char_offset_step, lemma_char_range_encode,
    lemma_utf8_len_nonneg, lemma_widths, utf8_len, utf8_width, utf8_width_exec,
};
use crate::text::{chars_of, lemma_nth_line, nth_line, nth_line_exec, slice_str};
use crate::unicode::{char_is_alphanumeric, char_is_uppercase, is_alphanumeric, is_uppercase};
use crate::completion_items::{sort_selected_entries, sorted_selection};
use crate::component_defs::{def_named, find_component_def, AttributeDef, ComponentDef};
use crate::definition::{find_ref_at_position, hash_spec, ref_at_position};
use crate::fence::{in_supersigil_fence, is_in_supersigil_fence};
use crate::numerals::{decimal, push_decimal};
use crate::sorting::{entry_views, str_views};
use crate::text::find_from;
use crate::urls::{file_url, url_from_file_path};
use vstd::string::StringExecFns;

verus! {

broadcast use vstd::utf8::encode_utf8_valid_utf8, vstd::utf8::encode_utf8_decode_utf8;

/// The index `k >= j` of the character that starts at byte offset `rem`
/// past character `j`'s start, if a character starts there.
pub open spec fn char_at_offset_from(cs: Seq<char>, j: int, rem: int) -> Option<int>
    decreases cs.len() - j,
{
    if rem == 0 {
        Some(j)
    } else if j < 0 || j >= cs.len() || rem < 0 {
        None
    } else {
        char_at_offset_from(cs, j + 1, rem - utf8_width(cs[j]))
    }
}

/// Index of the last non-alphanumeric character before index `k`.
pub open spec fn last_non_alnum_before(cs: Seq<char>, k: int) -> Option<int>
    decreases k,
{
    if k <= 0 {
        None
    } else if !is_alphanumeric(cs[k - 1]) {
        Some(k - 1)
    } else {
        last_non_alnum_before(cs, k - 1)
    }
}

/// Index of the first non-alphanumeric character at or after `k`, or the
/// length.
pub open spec fn first_non_alnum_from(cs: Seq<char>, k: int) -> int
    decreases cs.len() - k,
{
    if k >= cs.len() || k < 0 {
        cs.len() as int
    } else if !is_alphanumeric(cs[k]) {
        k
    } else {
        first_non_alnum_from(cs, k + 1)
    }
}

/// The lookup of the word at character index `ci` slices the line at byte
/// offset `ci` and just after the last non-alphanumeric character before
/// it; both must be character boundaries.
pub open spec fn name_lookup_ok(cs: Seq<char>, ci: int) -> bool {
    (0 <= ci < cs.len() && is_alphanumeric(cs[ci])) ==> match char_at_offset_from(cs, 0, ci) {
        Some(k0) => match last_non_alnum_before(cs, k0) {
            Some(k) => utf8_width(cs[k]) == 1,
            None => true,
        },
        None => false,
    }
}

/// The character range `[a, z)` of the component name at `ci`: the cursor
/// character (taken by character index) is alphanumeric; the word around
/// byte offset `ci` follows `<` or `</` and starts with an uppercase
/// letter.
pub open spec fn component_name_span(cs: Seq<char>, ci: int) -> Option<(int, int)> {
    if !(0 <= ci < cs.len()) || !is_alphanumeric(cs[ci]) {
        None
    } else {
        match char_at_offset_from(cs, 0, ci) {
            None => None,
            Some(k0) => match last_non_alnum_before(cs, k0) {
                None => None,
                Some(k) => {
                    let before_ok = cs[k] == '<' || (cs[k] == '/' && k >= 1 && cs[k - 1] == '<');
                    if before_ok && k + 1 < cs.len() && is_uppercase(cs[k + 1]) {
                        Some((k + 1, first_non_alnum_from(cs, k0)))
                    } else {
                        None
                    }
                },
            },
        }
    }
}

/// The characters of line `line` of `b`.
pub open spec fn line_chars(b: Seq<u8>, line: nat) -> Option<Seq<char>> {
    match nth_line(b, line) {
        Some((s, e)) => Some(decode_utf8(b.subrange(s, e))),
        None => None,
    }
}

/// `component_name_at_position` does not slice inside a character.
pub open spec fn name_lookup_ok_at(b: Seq<u8>, line: nat, ch: int) -> bool {
    match line_chars(b, line) {
        Some(cs) => name_lookup_ok(cs, ch),
        None => true,
    }
}

/// The component name at the cursor, as characters.
pub open spec fn component_name_at(b: Seq<u8>, line: nat, ch: int) -> Option<Seq<char>> {
    match line_chars(b, line) {
        Some(cs) => match component_name_span(cs, ch) {
            Some((a, z)) => Some(cs.subrange(a, z)),
            None => None,
        },
        None => None,
    }
}

proof fn lemma_last_before_bound(cs: Seq<char>, k: int)
    ensures
        last_non_alnum_before(cs, k) matches Some(j) ==> 0 <= j < k && !is_alphanumeric(cs[j]),
    decreases k,
{
    if k > 0 && is_alphanumeric(cs[k - 1]) {
        lemma_last_before_bound(cs, k - 1);
    }
}

proof fn lemma_first_from_bound(cs: Seq<char>, k: int)
    requires
        0 <= k <= cs.len(),
    ensures
        k <= first_non_alnum_from(cs, k) <= cs.len(),
    decreases cs.len() - k,
{
    if k < cs.len() && is_alphanumeric(cs[k]) {
        lemma_first_from_bound(cs, k + 1);
    }
}

/// Extract the component name at the cursor position, if any: the cursor
/// is on an identifier that immediately follows `<` (or the closing tag
/// prefix `</`) on the same line and starts with an uppercase letter.
pub fn component_name_at_position(content: &str, line: u32, character: u32) -> (r: Option<String>)
    requires
        name_lookup_ok_at(content.spec_bytes(), line as nat, character as int),
    ensures
        match component_name_at(content.spec_bytes(), line as nat, character as int) {
            Some(w) => r matches Some(x) && x@ == w,
            None => r is None,
        },
{
    let b = content.as_bytes();
    let (s, e) = match nth_line_exec(b, line as usize) {
        Some(x) => x,
        None => {
            return None;
        },
    };
    proof {
        assert(valid_utf8(b@));
        lemma_nth_line(b@, line as nat);
    }
    let line_str = slice_str(content, s, e);
    let cs = chars_of(line_str);
    let ghost g = cs@;
    proof {
        assert(g == decode_utf8(b@.subrange(s as int, e as int)));
        assert(encode_utf8(g) == line_str.spec_bytes());
    }
    let ci = character as usize;
    if ci >= cs.len() {
        return None;
    }
    if !char_is_alphanumeric(cs[ci]) {
        return None;
    }
    // Walk to the character that starts at byte offset `ci`, remembering the
    // last non-alphanumeric character passed.
    let mut k: usize = 0;
    let mut off: usize = 0;
    let mut last: Option<(usize, usize)> = None;
    proof {
        lemma_char_offset_start(g, 0);
        assert(g.take(0) =~= Seq::<char>::empty());
    }
    while off < ci
        invariant
            g == cs@,
            0 <= k <= g.len(),
            off == char_offset(g, k as int),
            ci < g.len(),
            char_at_offset_from(g, 0, ci as int) == char_at_offset_from(g, k as int, ci - off),
            char_at_offset_from(g, 0, ci as int) is Some,
            match last {
                Some((j, o)) => last_non_alnum_before(g, k as int) == Some(j as int) && o
                    == char_offset(g, j as int),
                None => last_non_alnum_before(g, k as int) is None,
            },
            off <= encode_utf8(g).len(),
            encode_utf8(g).len() <= usize::MAX,
        decreases ci - off,
    {
        proof {
            if k >= g.len() {
                assert(char_at_offset_from(g, k as int, ci - off) is None);
            }
        }
        let c = cs[k];
        let w = utf8_width_exec(c);
        proof {
            lemma_widths(c);
            lemma_char_offset_step(g, k as int);
            lemma_char_offset_start(g, k + 1);
        }
        if !char_is_alphanumeric(c) {
            last = Some((k, off));
        }
        off = off + w;
        k = k + 1;
    }
    proof {
        if off > ci {
            assert(char_at_offset_from(g, k as int, ci - off) is None);
        }
    }
    let (lk, loff) = match last {
        Some(x) => x,
        None => {
            return None;
        },
    };
    proof {
        lemma_last_before_bound(g, k as int);
        lemma_char_offset_step(g, lk as int);
    }
    // Walk to the end of the word.
    let mut z = k;
    let mut zoff = off;
    while z < cs.len() && char_is_alphanumeric(cs[z])
        invariant
            g == cs@,
            k <= z <= g.len(),
            zoff == char_offset(g, z as int),
            first_non_alnum_from(g, k as int) == first_non_alnum_from(g, z as int),
            zoff <= encode_utf8(g).len(),
            encode_utf8(g).len() <= usize::MAX,
        decreases g.len() - z,
    {
        proof {
            lemma_char_offset_step(g, z as int);
            lemma_char_offset_start(g, z + 1);
        }
        zoff = zoff + utf8_width_exec(cs[z]);
        z = z + 1;
    }
    proof {
        lemma_first_from_bound(g, k as int);
    }
    let lc = cs[lk];
    let before_ok = lc == '<' || (lc == '/' && lk >= 1 && cs[lk - 1] == '<');
    if !before_ok {
        return None;
    }
    if lk + 1 >= cs.len() || !char_is_uppercase(cs[lk + 1]) {
        return None;
    }
    proof {
        assert(char_at_offset_from(g, k as int, 0) == Some(k as int));
        assert(name_lookup_ok(g, ci as int));
        assert(utf8_width(g[lk as int]) == 1);
        lemma_char_offset_mono(g, lk + 1, k as int);
        lemma_char_offset_mono(g, k as int, z as int);
        lemma_char_offset_start(g, lk + 1);
        lemma_char_offset_start(g, z as int);
        lemma_char_range_encode(g, lk + 1, z as int);
        assert(decode_utf8(encode_utf8(g.subrange(lk + 1, z as int))) == g.subrange(
            lk + 1,
            z as int,
        ));
    }
    let word = slice_str(line_str, loff + 1, zoff);
    Some(word.to_owned())
}

/// [`component_name_at_position`] on any input: `None` when the lookup
/// would slice inside a character, else `Some` of the name, if any.
pub fn component_name_at_position_checked(content: &str, line: u32, character: u32) -> (r: Option<
    Option<String>,
>)
    ensures
        match r {
            None => !name_lookup_ok_at(content.spec_bytes(), line as nat, character as int),
            Some(n) => name_lookup_ok_at(content.spec_bytes(), line as nat, character as int)
                && match component_name_at(content.spec_bytes(), line as nat, character as int) {
                Some(w) => n matches Some(x) && x@ == w,
                None => n is None,
            },
        },
{
    if !component_name_lookup_ok(content, line, character) {
        return None;
    }
    Some(component_name_at_position(content, line, character))
}

/// Whether looking up the component name at the cursor stays on character
/// boundaries: the condition that `component_name_at_position` requires.
pub fn component_name_lookup_ok(content: &str, line: u32, character: u32) -> (r: bool)
    ensures
        r == name_lookup_ok_at(content.spec_bytes(), line as nat, character as int),
{
    let b = content.as_bytes();
    let (s, e) = match nth_line_exec(b, line as usize) {
        Some(x) => x,
        None => {
            return true;
        },
    };
    proof {
        assert(valid_utf8(b@));
        lemma_nth_line(b@, line as nat);
    }
    let line_str = slice_str(content, s, e);
    let cs = chars_of(line_str);
    let ghost g = cs@;
    proof {
        assert(g == decode_utf8(b@.subrange(s as int, e as int)));
        assert(encode_utf8(g) == line_str.spec_bytes());
    }
    let ci = character as usize;
    if ci >= cs.len() || !char_is_alphanumeric(cs[ci]) {
        return true;
    }
    let mut k: usize = 0;
    let mut off: usize = 0;
    let mut last: Option<usize> = None;
    proof {
        lemma_char_offset_start(g, 0);
        assert(g.take(0) =~= Seq::<char>::empty());
    }
    while off < ci && k < cs.len()
        invariant
            g == cs@,
            0 <= k <= g.len(),
            off == char_offset(g, k as int),
            ci < g.len(),
            char_at_offset_from(g, 0, ci as int) == char_at_offset_from(g, k as int, ci - off),
            match last {
                Some(j) => last_non_alnum_before(g, k as int) == Some(j as int),
                None => last_non_alnum_before(g, k as int) is None,
            },
            off <= encode_utf8(g).len(),
            encode_utf8(g).len() <= usize::MAX,
        decreases g.len() - k,
    {
        let c = cs[k];
        let w = utf8_width_exec(c);
        proof {
            lemma_widths(c);
            lemma_char_offset_step(g, k as int);
            lemma_char_offset_start(g, k + 1);
        }
        if !char_is_alphanumeric(c) {
            last = Some(k);
        }
        off = off + w;
        k = k + 1;
    }
    if off != ci {
        return false;
    }
    proof {
        assert(char_at_offset_from(g, k as int, 0) == Some(k as int));
    }
    match last {
        Some(j) => {
            proof {
                lemma_last_before_bound(g, k as int);
                lemma_widths(g[j as int]);
            }
            utf8_width_exec(cs[j]) == 1
        },
        None => true,
    }
}

// ---------------------------------------------------------------------------
// What the cursor is on
// ---------------------------------------------------------------------------

/// What a hover is about: a ref string, or a component name.
#[derive(Debug, PartialEq, Eq)]
pub enum HoverTarget {
    Ref(String),
    Component(String),
}

/// The hover lookup stays on character boundaries: the component name is
/// looked up only inside a fence and off a ref.
pub open spec fn hover_lookup_ok(b: Seq<u8>, line: nat, ch: int) -> bool {
    (in_supersigil_fence(b, line) && ref_at_position(b, line, ch) is None) ==> name_lookup_ok_at(b, line, ch)
}

/// Whether the hover lookup at the cursor stays on character boundaries:
/// the condition that `hover_target` requires.
pub fn hover_lookup_ok_exec(content: &str, line: u32, character: u32) -> (r: bool)
    requires
        content.spec_bytes().len() <= u32::MAX,
    ensures
        r == hover_lookup_ok(content.spec_bytes(), line as nat, character as int),
{
    !is_in_supersigil_fence(content, line) || find_ref_at_position(content, line, character).is_some()
        || component_name_lookup_ok(content, line, character)
}

/// Detect what the cursor is on, for a hover: a ref string (checked first)
/// or a component name, inside a `supersigil-xml` fence.
pub fn hover_target(content: &str, line: u32, character: u32) -> (r: Option<HoverTarget>)
    requires
        content.spec_bytes().len() <= u32::MAX,
        hover_lookup_ok(content.spec_bytes(), line as nat, character as int),
    ensures
        !in_supersigil_fence(content.spec_bytes(), line as nat) ==> r is None,
        in_supersigil_fence(content.spec_bytes(), line as nat) ==> match ref_at_position(
            content.spec_bytes(),
            line as nat,
            character as int,
        ) {
            Some(sp) => r matches Some(HoverTarget::Ref(x)) && encode_utf8(x@) == content.spec_bytes().subrange(
                sp.0,
                sp.1,
            ),
            None => match component_name_at(content.spec_bytes(), line as nat, character as int) {
                Some(w) => r matches Some(HoverTarget::Component(x)) && x@ == w,
                None => r is None,
            },
        },
{
    if !is_in_supersigil_fence(content, line) {
        return None;
    }
    match find_ref_at_position(content, line, character) {
        Some(found) => {
            return Some(HoverTarget::Ref(found.ref_string));
        },
        None => {},
    }
    match component_name_at_position(content, line, character) {
        Some(name) => Some(HoverTarget::Component(name)),
        None => None,
    }
}

/// [`hover_target`] on any input: `None` when the content is too long for
/// 32-bit offsets or the lookup would slice inside a character, else
/// `Some` of what the cursor is on.
pub fn hover_target_checked(content: &str, line: u32, character: u32) -> (r: Option<Option<HoverTarget>>)
    ensures
        match r {
            None => !(content.spec_bytes().len() <= u32::MAX && hover_lookup_ok(
                content.spec_bytes(),
                line as nat,
                character as int,
            )),
            Some(t) => content.spec_bytes().len() <= u32::MAX && hover_lookup_ok(
                content.spec_bytes(),
                line as nat,
                character as int,
            ) && (!in_supersigil_fence(content.spec_bytes(), line as nat) ==> t is None)
                && (in_supersigil_fence(content.spec_bytes(), line as nat) ==> match ref_at_position(
                content.spec_bytes(),
                line as nat,
                character as int,
            ) {
                Some(sp) => t matches Some(HoverTarget::Ref(x)) && encode_utf8(x@)
                    == content.spec_bytes().subrange(sp.0, sp.1),
                None => match component_name_at(content.spec_bytes(), line as nat, character as int) {
                    Some(w) => t matches Some(HoverTarget::Component(x)) && x@ == w,
                    None => t is None,
                },
            }),
        },
{
    if content.as_bytes().len() > 0xffff_ffffusize || !hover_lookup_ok_exec(content, line, character) {
        return None;
    }
    Some(hover_target(content, line, character))
}

// ---------------------------------------------------------------------------
// Component hover
// ---------------------------------------------------------------------------

/// `yes` or `no`.
pub open spec fn yes_no(b: bool) -> Seq<char> {
    if b {
        "yes"@
    } else {
        "no"@
    }
}

fn yes_no_exec(b: bool) -> (r: &'static str)
    ensures
        r@ == yes_no(b),
{
    if b {
        "yes"
    } else {
        "no"
    }
}

/// The table row of an attribute.
pub open spec fn attribute_row(a: AttributeDef) -> Seq<char> {
    "| "@ + a.name@ + " | "@ + yes_no(a.required) + " | "@ + yes_no(a.list) + " |\n"@
}

/// The rows of `attrs`, in order.
pub open spec fn attribute_rows(attrs: Seq<AttributeDef>) -> Seq<char>
    decreases attrs.len(),
{
    if attrs.len() == 0 {
        Seq::empty()
    } else {
        attribute_rows(attrs.drop_last()) + attribute_row(attrs.last())
    }
}

/// The names of the attributes.
pub open spec fn attr_names(attrs: Seq<AttributeDef>) -> Seq<Seq<char>> {
    attrs.map_values(|a: AttributeDef| a.name@)
}

/// The attributes sorted by name.
pub open spec fn sorted_attrs(attrs: Seq<AttributeDef>) -> Seq<AttributeDef> {
    sorted_selection(attr_names(attrs), Seq::new(attrs.len(), |i: int| true)).map_values(
        |e: (Seq<char>, int)| attrs[e.1],
    )
}

/// The hover text of a component definition: a heading, the description,
/// a table of the attributes sorted by name (or a note that there are
/// none), and whether it is referenceable and verifiable.
pub open spec fn component_hover(name: Seq<char>, def: ComponentDef) -> Seq<char> {
    "### "@ + name + "\n"@ + (match def.description {
        Some(d) => "\n"@ + d@ + "\n"@,
        None => Seq::empty(),
    }) + (if def.attributes@.len() == 0 {
        "\n_No attributes._\n"@
    } else {
        "\n| Attribute | Required | List |\n"@ + "|-----------|----------|------|\n"@ + attribute_rows(
            sorted_attrs(def.attributes@),
        )
    }) + "\nReferenceable: "@ + yes_no(def.referenceable) + " | Verifiable: "@ + yes_no(def.verifiable) + "\n"@
}

/// Append the table row of one attribute.
fn append_attribute_row(md: &mut String, a: &AttributeDef)
    ensures
        final(md)@ == old(md)@ + attribute_row(*a),
{
    md.append("| ");
    md.append(a.name.as_str());
    md.append(" | ");
    md.append(yes_no_exec(a.required));
    md.append(" | ");
    md.append(yes_no_exec(a.list));
    md.append(" |\n");
    proof {
        assert(attribute_row(*a) =~= "| "@ + a.name@ + " | "@ + yes_no(a.required) + " | "@ + yes_no(a.list) + " |\n"@);
    }
}

/// Append the table rows of `attributes`, sorted by name.
#[verifier::spinoff_prover]
fn append_attribute_rows(md: &mut String, attributes: &Vec<AttributeDef>)
    ensures
        final(md)@ == old(md)@ + attribute_rows(sorted_attrs(attributes@)),
{
    let mut labels: Vec<&str> = Vec::new();
    let mut sel: Vec<bool> = Vec::new();
    let mut i: usize = 0;
    while i < attributes.len()
        invariant
            0 <= i <= attributes@.len(),
            str_views(labels@) == attr_names(attributes@).take(i as int),
            sel@.len() == i,
            forall|k: int| 0 <= k < i ==> #[trigger] sel@[k],
        decreases attributes@.len() - i,
    {
        let ghost before = labels@;
        labels.push(attributes[i].name.as_str());
        sel.push(true);
        proof {
            assert(str_views(labels@) =~= str_views(before).push(attributes@[i as int].name@));
            assert(attr_names(attributes@).take(i + 1) =~= attr_names(attributes@).take(i as int).push(
                attributes@[i as int].name@,
            ));
        }
        i = i + 1;
    }
    proof {
        assert(attr_names(attributes@).take(attributes@.len() as int) =~= attr_names(attributes@));
        assert(sel@ =~= Seq::new(attributes@.len(), |i: int| true));
    }
    let sorted = sort_selected_entries(&labels, &sel);
    let ghost order = sorted_attrs(attributes@);
    let ghost head = md@;
    proof {
        assert forall|m: int| 0 <= m < sorted@.len() implies (#[trigger] sorted@[m]).1 < attributes@.len()
            && order[m] == attributes@[sorted@[m].1 as int] by {
            assert(entry_views(sorted@)[m] == (sorted@[m].0@, sorted@[m].1 as int));
        }
    }
    let mut k: usize = 0;
    while k < sorted.len()
        invariant
            0 <= k <= sorted@.len(),
            order.len() == sorted@.len(),
            forall|m: int| 0 <= m < sorted@.len() ==> (#[trigger] sorted@[m]).1 < attributes@.len()
                && order[m] == attributes@[sorted@[m].1 as int],
            md@ == head + attribute_rows(order.take(k as int)),
        decreases sorted@.len() - k,
    {
        let a = &attributes[sorted[k].1];
        proof {
            assert(order[k as int] == *a);
            assert(order.take(k + 1).drop_last() =~= order.take(k as int));
        }
        append_attribute_row(md, a);
        k = k + 1;
    }
    proof {
        assert(order.take(sorted@.len() as int) =~= order);
    }
}

/// Return the hover text (Markdown) for the component definition named
/// `name`; `None` when no definition has that name.
pub fn hover_component(name: &str, defs: &[ComponentDef]) -> (r: Option<String>)
    ensures
        match def_named(defs@, name@) {
            Some(def) => r matches Some(t) && t@ == component_hover(name@, def),
            None => r is None,
        },
{
    let def = match find_component_def(defs, name) {
        Some(d) => d,
        None => {
            return None;
        },
    };
    let mut md = String::from_str("### ");
    md.append(name);
    md.append("\n");
    match &def.description {
        Some(d) => {
            md.append("\n");
            md.append(d.as_str());
            md.append("\n");
        },
        None => {},
    }
    if def.attributes.len() == 0 {
        md.append("\n_No attributes._\n");
    } else {
        md.append("\n| Attribute | Required | List |\n");
        md.append("|-----------|----------|------|\n");
        append_attribute_rows(&mut md, &def.attributes);
    }
    md.append("\nReferenceable: ");
    md.append(yes_no_exec(def.referenceable));
    md.append(" | Verifiable: ");
    md.append(yes_no_exec(def.verifiable));
    md.append("\n");
    Some(md)
}

// ---------------------------------------------------------------------------
// Ref hover
// ---------------------------------------------------------------------------

/// A ref split at its first `#`: the document ID and, if there is a `#`,
/// the fragment ID.
pub open spec fn ref_parts(b: Seq<u8>) -> (Seq<u8>, Option<Seq<u8>>) {
    match find_from(b, 0, b.len() as int, hash_spec()) {
        Some(h) => (b.subrange(0, h), Some(b.subrange(h + 1, b.len() as int))),
        None => (b, None),
    }
}

/// Split a ref string into its document ID and optional fragment ID.
pub fn split_ref(ref_str: &str) -> (r: (&str, Option<&str>))
    ensures
        r.0.spec_bytes() == ref_parts(ref_str.spec_bytes()).0,
        match ref_parts(ref_str.spec_bytes()).1 {
            Some(f) => r.1 matches Some(x) && x.spec_bytes() == f,
            None => r.1 is None,
        },
{
    let b = ref_str.as_bytes();
    let hash = [35u8];
    proof {
        assert(hash@ =~= hash_spec());
        crate::text::lemma_find_from_bounds(b@, 0, b@.len() as int, hash_spec());
        assert(valid_utf8(b@));
    }
    match crate::text::find_exec(b, 0, b.len(), hash.as_slice()) {
        Some(h) => {
            proof {
                assert(b@[h + 0] == hash_spec()[0]);
                crate::text::lemma_ascii_start(b@, h as int);
                crate::text::lemma_after_ascii(b@, h as int);
                assert(crate::text::char_start(b@, 0)) by {
                    crate::text::lemma_line_start_bounds(b@, 0);
                }
                assert(crate::text::char_start(b@, b@.len() as int));
            }
            (slice_str(ref_str, 0, h), Some(slice_str(ref_str, h + 1, b.len())))
        },
        None => (ref_str, None),
    }
}

/// The hover text of a fragment ref.
pub open spec fn fragment_hover(title: Seq<char>, kind: Seq<char>, fragment: Seq<char>, link: Seq<char>, body: Option<Seq<char>>) -> Seq<char> {
    "### ["@ + title + " — "@ + kind + " `"@ + fragment + "`]("@ + link + ")\n\n"@ + match body {
        Some(t) => "> "@ + t + "\n"@,
        None => Seq::empty(),
    }
}

/// The characters of an optional string slice.
pub open spec fn opt_text(o: Option<&str>) -> Option<Seq<char>> {
    match o {
        Some(s) => Some(s@),
        None => None,
    }
}

/// The hover text (Markdown) of a fragment ref: the document title, the
/// component kind and ID as a link, then the component's body quoted.
pub fn fragment_hover_text(title: &str, kind: &str, fragment: &str, link: &str, body: Option<&str>) -> (r: String)
    ensures
        r@ == fragment_hover(title@, kind@, fragment@, link@, opt_text(body)),
{
    let mut md = String::from_str("### [");
    md.append(title);
    md.append(" — ");
    md.append(kind);
    md.append(" `");
    md.append(fragment);
    md.append("`](");
    md.append(link);
    md.append(")\n\n");
    match body {
        Some(t) => {
            md.append("> ");
            md.append(t);
            md.append("\n");
        },
        None => {},
    }
    md
}

/// The hover text of a document ref.
pub open spec fn document_hover(title: Seq<char>, doc_type: Option<Seq<char>>, status: Option<Seq<char>>, link: Seq<char>) -> Seq<char> {
    "### ["@ + title + "]("@ + link + ")\n\n**Type:** "@ + match doc_type {
        Some(t) => t,
        None => "unknown"@,
    } + " | **Status:** "@ + match status {
        Some(s) => s,
        None => "unknown"@,
    } + "\n"@
}

/// The hover text (Markdown) of a document ref: its title as a link, its
/// type and its status (`unknown` when not declared).
pub fn document_hover_text(title: &str, doc_type: Option<&str>, status: Option<&str>, link: &str) -> (r: String)
    ensures
        r@ == document_hover(title@, opt_text(doc_type), opt_text(status), link@),
{
    let mut md = String::from_str("### [");
    md.append(title);
    md.append("](");
    md.append(link);
    md.append(")\n\n**Type:** ");
    match doc_type {
        Some(t) => md.append(t),
        None => md.append("unknown"),
    }
    md.append(" | **Status:** ");
    match status {
        Some(s) => md.append(s),
        None => md.append("unknown"),
    }
    md.append("\n");
    md
}

/// The link of the file at `path` in a hover: its `file://` URL, or
/// `file://` and the path when no URL can be made of it; with `#` and the
/// line for a positive line.
pub open spec fn file_link_text(path: Seq<char>, line: Option<usize>) -> Seq<char> {
    line_link(
        match file_url(path) {
            Some(u) => u,
            None => "file://"@ + path,
        },
        line,
    )
}

/// Build a `file://` URI with an optional line fragment for clickable links
/// in hover tooltips.
pub fn file_link(path: &str, line: Option<usize>) -> (r: String)
    ensures
        r@ == file_link_text(path@, line),
{
    let uri = match url_from_file_path(path) {
        Some(u) => u,
        None => {
            let mut s = String::from_str("file://");
            s.append(path);
            s
        },
    };
    line_link_exec(uri.as_str(), line)
}

/// A file link to line `line` of the file at `uri`: `uri#line` for a
/// positive line, `uri` otherwise.
pub open spec fn line_link(uri: Seq<char>, line: Option<usize>) -> Seq<char> {
    match line {
        Some(l) => if l > 0 {
            uri + seq!['#'] + decimal(l as nat)
        } else {
            uri
        },
        None => uri,
    }
}

/// Add the line anchor to a file link.
pub fn line_link_exec(uri: &str, line: Option<usize>) -> (r: String)
    ensures
        r@ == line_link(uri@, line),
{
    let mut s = String::from_str(uri);
    match line {
        Some(l) => {
            if l > 0 {
                s.append("#");
                proof {
                    reveal_strlit("#");
                }
                push_decimal(&mut s, l as u128);
            }
        },
        None => {},
    }
    s
}

/// The hover text of a document ref opens with its title linked to the
/// file, and ends with `**Status:** `, the declared status as written and a
/// newline; `unknown` stands there only when no status is declared.  So two
/// documents that differ only in their declared status get different texts,
/// and so do two that differ only in their declared type.
pub proof fn law_document_hover_shows_type_and_status(
    title: Seq<char>,
    doc_type: Option<Seq<char>>,
    status: Option<Seq<char>>,
    link: Seq<char>,
    other: Seq<char>,
)
    ensures
        doc_type matches Some(t) && t != other ==> document_hover(title, doc_type, status, link)
            != document_hover(title, Some(other), status, link),
        document_hover(title, doc_type, status, link).subrange(0, (title.len() + link.len() + 8) as int)
            == "### ["@ + title + "]("@ + link + ")"@,
        status matches Some(s) ==> exists|pre: Seq<char>|
            document_hover(title, doc_type, status, link) == pre + "**Status:** "@ + s + "\n"@,
        status is None ==> exists|pre: Seq<char>|
            document_hover(title, doc_type, status, link) == pre + "**Status:** unknown\n"@,
        status matches Some(s) && s != other ==> document_hover(title, doc_type, status, link)
            != document_hover(title, doc_type, Some(other), link),
{
    reveal_strlit("### [");
    reveal_strlit("](");
    reveal_strlit(")");
    reveal_strlit(")\n\n**Type:** ");
    reveal_strlit(" | **Status:** ");
    reveal_strlit(" | ");
    reveal_strlit("**Status:** ");
    reveal_strlit("**Status:** unknown\n");
    reveal_strlit("unknown");
    reveal_strlit("\n");
    let ty = match doc_type {
        Some(t) => t,
        None => "unknown"@,
    };
    let head = "### ["@ + title + "]("@ + link + ")\n\n**Type:** "@ + ty + " | "@;
    let h = document_hover(title, doc_type, status, link);
    if doc_type is Some && doc_type.unwrap() != other {
        let t = doc_type.unwrap();
        let st = match status {
            Some(s) => s,
            None => "unknown"@,
        };
        let front = "### ["@ + title + "]("@ + link + ")\n\n**Type:** "@;
        let back = " | **Status:** "@ + st + "\n"@;
        let g = document_hover(title, Some(other), status, link);
        assert(h =~= front + t + back);
        assert(g =~= front + other + back);
        if h == g {
            let n = front.len();
            assert(t.len() == other.len());
            assert forall|i: int| 0 <= i < t.len() implies t[i] == other[i] by {
                assert(h[n + i] == t[i]);
                assert(g[n + i] == other[i]);
            }
            assert(t =~= other);
        }
    }
    assert(h.subrange(0, (title.len() + link.len() + 8) as int) =~= "### ["@ + title + "]("@ + link + ")"@);
    match status {
        Some(s) => {
            assert(h =~= head + "**Status:** "@ + s + "\n"@);
            let g = document_hover(title, doc_type, Some(other), link);
            assert(g =~= head + "**Status:** "@ + other + "\n"@);
            if s != other {
                if h == g {
                    let n = head.len() + 12;
                    assert(h.len() == g.len());
                    assert(s.len() == other.len());
                    assert forall|i: int| 0 <= i < s.len() implies s[i] == other[i] by {
                        assert(h[n + i] == s[i]);
                        assert(g[n + i] == other[i]);
                    }
                    assert(s =~= other);
                }
            }
        },
        None => {
            assert(h =~= head + "**Status:** unknown\n"@);
        },
    }
}

proof fn lemma_middle_injective(a: Seq<char>, x: Seq<char>, y: Seq<char>, c: Seq<char>)
    requires
        x != y,
    ensures
        a + x + c != a + y + c,
{
    let h = a + x + c;
    let g = a + y + c;
    if h == g {
        assert(h.len() == g.len());
        assert(x.len() == y.len());
        assert forall|i: int| 0 <= i < x.len() implies x[i] == y[i] by {
            assert(h[a.len() + i] == x[i]);
            assert(g[a.len() + i] == y[i]);
        }
        assert(x =~= y);
    }
}

/// The hover text of a fragment ref opens with the document title, the
/// component kind and the fragment ID in backticks, linked to the file; it
/// ends with the component's body quoted on a line of its own when there is
/// one, and right after the heading's blank line when there is none.  Each
/// of kind, fragment ID and body shows as given: changing one alone changes
/// the text.
pub proof fn law_fragment_hover_shows_its_parts(
    title: Seq<char>,
    kind: Seq<char>,
    fragment: Seq<char>,
    link: Seq<char>,
    body: Option<Seq<char>>,
    other: Seq<char>,
)
    ensures
        fragment_hover(title, kind, fragment, link, body).subrange(0, (title.len() + 5) as int) == "### ["@
            + title,
        body matches Some(t) ==> exists|pre: Seq<char>|
            fragment_hover(title, kind, fragment, link, body) == pre + "]("@ + link + ")\n\n> "@ + t + "\n"@,
        body is None ==> exists|pre: Seq<char>|
            fragment_hover(title, kind, fragment, link, body) == pre + "]("@ + link + ")\n\n"@,
        kind != other ==> fragment_hover(title, kind, fragment, link, body) != fragment_hover(
            title,
            other,
            fragment,
            link,
            body,
        ),
        fragment != other ==> fragment_hover(title, kind, fragment, link, body) != fragment_hover(
            title,
            kind,
            other,
            link,
            body,
        ),
        body matches Some(t) && t != other ==> fragment_hover(title, kind, fragment, link, body)
            != fragment_hover(title, kind, fragment, link, Some(other)),
{
    reveal_strlit("### [");
    reveal_strlit(" — ");
    reveal_strlit(" `");
    reveal_strlit("`](");
    reveal_strlit("](");
    reveal_strlit(")\n\n");
    reveal_strlit(")\n\n> ");
    reveal_strlit("> ");
    reveal_strlit("\n");
    let tail = match body {
        Some(t) => "> "@ + t + "\n"@,
        None => Seq::<char>::empty(),
    };
    let h = fragment_hover(title, kind, fragment, link, body);
    assert(h.subrange(0, (title.len() + 5) as int) =~= "### ["@ + title);
    let pre = "### ["@ + title + " — "@ + kind + " `"@ + fragment + "`"@;
    reveal_strlit("`");
    match body {
        Some(t) => {
            assert(h =~= pre + "]("@ + link + ")\n\n> "@ + t + "\n"@);
        },
        None => {
            assert(h =~= pre + "]("@ + link + ")\n\n"@);
        },
    }
    if kind != other {
        let a = "### ["@ + title + " — "@;
        let c = " `"@ + fragment + "`]("@ + link + ")\n\n"@ + tail;
        lemma_middle_injective(a, kind, other, c);
        assert(h =~= a + kind + c);
        assert(fragment_hover(title, other, fragment, link, body) =~= a + other + c);
    }
    if fragment != other {
        let a = "### ["@ + title + " — "@ + kind + " `"@;
        let c = "`]("@ + link + ")\n\n"@ + tail;
        lemma_middle_injective(a, fragment, other, c);
        assert(h =~= a + fragment + c);
        assert(fragment_hover(title, kind, other, link, body) =~= a + other + c);
    }
    if body is Some && body.unwrap() != other {
        let t = body.unwrap();
        let a = "### ["@ + title + " — "@ + kind + " `"@ + fragment + "`]("@ + link + ")\n\n> "@;
        lemma_middle_injective(a, t, other, "\n"@);
        assert(h =~= a + t + "\n"@);
        assert(fragment_hover(title, kind, fragment, link, Some(other)) =~= a + other + "\n"@);
    }
}

} // verus!
