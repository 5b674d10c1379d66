//! The document outline: each component of a parsed document as a symbol,
//! nested as the components are.

use vstd::prelude::*;
use vstd::string::StringSliceAdditionalSpecFns;
use crate::position::{
    source_to_lsp_utf16, utf16_position, utf16_position_ok, zero_range, Range, SourcePosition,
};
use crate::report::utf16_position_in_bounds;
use crate::text::same_str;

verus! {

/// The kind of an outline symbol.
#[derive(Debug, Clone, Copy, PartialEq, Eq, Structural)]
pub enum SymbolKind {
    Property,
    Event,
    Interface,
    EnumMember,
    Struct,
    Object,
}

/// A component as the outline reads it: its name, its ID, where it starts
/// and ends, and its children.
#[derive(Debug)]
pub struct OutlineComponent {
    pub name: String,
    pub id: Option<String>,
    pub position: SourcePosition,
    pub end_position: SourcePosition,
    pub children: Vec<OutlineComponent>,
}

/// An outline symbol.
#[derive(Debug)]
pub struct DocumentSymbol {
    pub name: String,
    pub detail: Option<String>,
    pub kind: SymbolKind,
    pub range: Range,
    pub selection_range: Range,
    pub children: Option<Vec<DocumentSymbol>>,
}

/// The symbol kind of a component name.
pub open spec fn kind_of(name: Seq<char>) -> SymbolKind {
    if name == "Criterion"@ {
        SymbolKind::Property
    } else if name == "Task"@ {
        SymbolKind::Event
    } else if name == "Decision"@ {
        SymbolKind::Interface
    } else if name == "Alternative"@ {
        SymbolKind::EnumMember
    } else if name == "VerifiedBy"@ || name == "TrackedFiles"@ || name == "References"@ || name == "Implements"@
        || name == "DependsOn"@ {
        SymbolKind::Struct
    } else {
        SymbolKind::Object
    }
}

/// The symbol kind for a component name.
pub fn symbol_kind(name: &str) -> (r: SymbolKind)
    ensures
        r == kind_of(name@),
{
    proof {
        reveal_strlit("Criterion");
        reveal_strlit("Task");
        reveal_strlit("Decision");
        reveal_strlit("Alternative");
        reveal_strlit("VerifiedBy");
        reveal_strlit("TrackedFiles");
        reveal_strlit("References");
        reveal_strlit("Implements");
        reveal_strlit("DependsOn");
    }
    if same_str(name, "Criterion") {
        SymbolKind::Property
    } else if same_str(name, "Task") {
        SymbolKind::Event
    } else if same_str(name, "Decision") {
        SymbolKind::Interface
    } else if same_str(name, "Alternative") {
        SymbolKind::EnumMember
    } else if same_str(name, "VerifiedBy") || same_str(name, "TrackedFiles") || same_str(name, "References")
        || same_str(name, "Implements") || same_str(name, "DependsOn") {
        SymbolKind::Struct
    } else {
        SymbolKind::Object
    }
}

/// Every position of `c` and its descendants lies in the text `b`.
pub open spec fn comp_positions_ok(c: OutlineComponent, b: Seq<u8>) -> bool
    decreases c,
{
    &&& utf16_position_ok(c.position, b)
    &&& utf16_position_ok(c.end_position, b)
    &&& list_positions_ok(c.children@, b)
}

/// Every position of `cs` and their descendants lies in the text `b`.
pub open spec fn list_positions_ok(cs: Seq<OutlineComponent>, b: Seq<u8>) -> bool
    decreases cs,
{
    cs.len() == 0 || (list_positions_ok(cs.drop_last(), b) && comp_positions_ok(cs.last(), b))
}

/// `s` is the symbol of `c`: named by its ID (detailed by the component
/// name) or else by its name, spanning the component, selecting its start,
/// with the symbols of its children when it has any.
pub open spec fn symbol_is(s: DocumentSymbol, c: OutlineComponent, b: Seq<u8>) -> bool
    decreases c,
{
    let start = utf16_position(c.position, b);
    &&& s.name@ == (match c.id {
        Some(id) => id@,
        None => c.name@,
    })
    &&& (match (s.detail, c.id) {
        (Some(d), Some(_)) => d@ == c.name@,
        (None, None) => true,
        _ => false,
    })
    &&& s.kind == kind_of(c.name@)
    &&& s.range == (Range { start, end: utf16_position(c.end_position, b) })
    &&& s.selection_range == (Range { start, end: start })
    &&& match s.children {
        None => c.children@.len() == 0,
        Some(ch) => c.children@.len() > 0 && symbols_are(ch@, c.children@, b),
    }
}

/// `ss` are the symbols of `cs`, one for one.
pub open spec fn symbols_are(ss: Seq<DocumentSymbol>, cs: Seq<OutlineComponent>, b: Seq<u8>) -> bool
    decreases cs,
{
    &&& ss.len() == cs.len()
    &&& (cs.len() == 0 || (symbols_are(ss.drop_last(), cs.drop_last(), b) && symbol_is(
        ss.last(),
        cs.last(),
        b,
    )))
}

proof fn lemma_positions_part(cs: Seq<OutlineComponent>, b: Seq<u8>, i: int)
    requires
        list_positions_ok(cs, b),
        0 <= i < cs.len(),
    ensures
        comp_positions_ok(cs[i], b),
        list_positions_ok(cs.take(i + 1), b),
    decreases cs.len(),
{
    if i < cs.len() - 1 {
        assert(cs.drop_last()[i] == cs[i]);
        lemma_positions_part(cs.drop_last(), b, i);
        assert(cs.drop_last().take(i + 1) =~= cs.take(i + 1));
    } else {
        assert(cs.take(i + 1) =~= cs);
    }
}

/// The symbol of one component, given the symbols of its children.
fn component_to_symbol(component: &OutlineComponent, content: &str, children: Vec<DocumentSymbol>) -> (r: DocumentSymbol)
    requires
        utf16_position_ok(component.position, content.spec_bytes()),
        utf16_position_ok(component.end_position, content.spec_bytes()),
        content.spec_bytes().len() <= u32::MAX,
        children@.len() == component.children@.len(),
        symbols_are(children@, component.children@, content.spec_bytes()),
    ensures
        symbol_is(r, *component, content.spec_bytes()),
{
    let (name, detail) = match &component.id {
        Some(id) => (id.clone(), Some(component.name.clone())),
        None => (component.name.clone(), None),
    };
    let start = source_to_lsp_utf16(&component.position, content);
    let end = source_to_lsp_utf16(&component.end_position, content);
    let kids = if children.len() == 0 {
        None
    } else {
        Some(children)
    };
    DocumentSymbol {
        name,
        detail,
        kind: symbol_kind(component.name.as_str()),
        range: Range { start, end },
        selection_range: zero_range(start),
        children: kids,
    }
}

/// Whether every position of `components` and their descendants lies in
/// `content`: the condition that `document_symbols` requires.
pub fn outline_positions_ok(components: &[OutlineComponent], content: &str) -> (r: bool)
    ensures
        r == list_positions_ok(components@, content.spec_bytes()),
    decreases components@,
{
    let ghost b = content.spec_bytes();
    let mut i: usize = 0;
    while i < components.len()
        invariant
            0 <= i <= components@.len(),
            b == content.spec_bytes(),
            list_positions_ok(components@.take(i as int), b),
        decreases components@.len() - i,
    {
        let comp = &components[i];
        proof {
            assert(components@.take(i + 1).drop_last() =~= components@.take(i as int));
            assert(components@.take(i + 1).last() == components@[i as int]);
        }
        let ok = utf16_position_in_bounds(&comp.position, content) && utf16_position_in_bounds(
            &comp.end_position,
            content,
        ) && outline_positions_ok(comp.children.as_slice(), content);
        if !ok {
            proof {
                lemma_positions_prefix(components@, b, i as int);
            }
            return false;
        }
        proof {
            assert(comp_positions_ok(components@[i as int], b));
            assert(list_positions_ok(components@.take(i + 1), b));
        }
        i = i + 1;
    }
    proof {
        assert(components@.take(components@.len() as int) =~= components@);
    }
    true
}

/// A list with a member whose positions do not all lie in the text does
/// not lie in it either.
proof fn lemma_positions_prefix(cs: Seq<OutlineComponent>, b: Seq<u8>, i: int)
    requires
        0 <= i < cs.len(),
        !comp_positions_ok(cs[i], b),
    ensures
        !list_positions_ok(cs, b),
    decreases cs.len(),
{
    if list_positions_ok(cs, b) {
        lemma_positions_part(cs, b, i);
    }
}

/// Build the outline of the components of a parsed document: one symbol
/// per component, nested as the components are.  `content` is the
/// document's text, against which positions are converted to UTF-16.
pub fn document_symbols(components: &[OutlineComponent], content: &str) -> (r: Vec<DocumentSymbol>)
    requires
        list_positions_ok(components@, content.spec_bytes()),
        content.spec_bytes().len() <= u32::MAX,
    ensures
        symbols_are(r@, components@, content.spec_bytes()),
    decreases components@,
{
    let ghost b = content.spec_bytes();
    let mut out: Vec<DocumentSymbol> = Vec::new();
    let mut i: usize = 0;
    while i < components.len()
        invariant
            0 <= i <= components@.len(),
            b == content.spec_bytes(),
            b.len() <= u32::MAX,
            list_positions_ok(components@, b),
            symbols_are(out@, components@.take(i as int), b),
        decreases components@.len() - i,
    {
        let comp = &components[i];
        proof {
            assert(components@.take(i + 1).drop_last() =~= components@.take(i as int));
            assert(components@.take(i + 1).last() == components@[i as int]);
            lemma_positions_part(components@, b, i as int);
        }
        let children = document_symbols(comp.children.as_slice(), content);
        let sym = component_to_symbol(comp, content, children);
        let ghost before = out@;
        out.push(sym);
        proof {
            assert(out@.drop_last() =~= before);
        }
        i = i + 1;
    }
    proof {
        assert(components@.take(components@.len() as int) =~= components@);
    }
    out
}

} // verus!
