//! Laws of the conversion, stated over the machine's model and proved.
use vstd::prelude::*;
use crate::bytes::splice;
use crate::config::{Config, claimant, claimant_from};
use crate::element::{Element, name, attributes, content, asks_process};
use crate::convert::{
    State, StepModel, Rendering, dispatch, render_plain, next, resumed, special_literal,
    include_name,
};
use crate::plugin::{Plugin, claims};

verus! {

/// The text from just after the marker up to the body-open: the name, and
/// the attributes if there are any.
pub open spec fn head(doc: Seq<u8>, e: Element) -> Seq<u8> {
    doc.subrange(e.start + 1, e.body as int)
}

/// No special name and no plugin takes the element.
pub open spec fn generic_case(doc: Seq<u8>, e: Element, cfg: Config) -> bool {
    &&& (cfg.disable_special_elements || (special_literal(name(doc, e)) is None
        && name(doc, e) != include_name()))
    &&& claimant(cfg.plugins@, name(doc, e)) is None
}

/// An element with empty content, when empty elements take the short form,
/// becomes the self-closing tag `<head/>` in place of `\head{}`, and scanning
/// resumes right after it.
pub proof fn law_empty_element_self_closes(doc: Seq<u8>, e: Element, cfg: Config)
    requires
        e.placed(doc.len() as int),
        e.body + 1 == e.end,
        !cfg.long_empty,
        generic_case(doc, e, cfg),
    ensures
        ({
            let tag = seq![60u8] + head(doc, e) + seq![47u8, 62u8];
            dispatch(doc, e, cfg) == Rendering::Replace(
                splice(doc, e.start as int, e.end + 1, tag),
                e.start + tag.len(),
            )
        }),
{
    let tag = seq![60u8] + head(doc, e) + seq![47u8, 62u8];
    let d = doc.update(e.start as int, 60u8).update(e.body as int, 47u8).update(e.end as int, 62u8);
    assert(content(doc, e).len() == 0);
    assert(d =~= splice(doc, e.start as int, e.end + 1, tag));
}

/// An element with content, or any element when empty elements take the long
/// form, becomes `<head>content</name>` in place of `\head{content}`, and
/// scanning resumes right after the closing tag.
pub proof fn law_element_long_form(doc: Seq<u8>, e: Element, cfg: Config)
    requires
        e.placed(doc.len() as int),
        cfg.long_empty || content(doc, e).len() > 0,
        generic_case(doc, e, cfg),
    ensures
        ({
            let n = name(doc, e);
            let tag = seq![60u8] + head(doc, e) + seq![62u8] + content(doc, e)
                + seq![60u8, 47u8] + n + seq![62u8];
            dispatch(doc, e, cfg) == Rendering::Replace(
                splice(doc, e.start as int, e.end + 1, tag),
                e.start + tag.len(),
            )
        }),
{
    let n = name(doc, e);
    let tag = seq![60u8] + head(doc, e) + seq![62u8] + content(doc, e)
        + seq![60u8, 47u8] + n + seq![62u8];
    let u = doc.update(e.start as int, 60u8).update(e.body as int, 62u8);
    let d = splice(u, e.end as int, e.end + 1, seq![60u8, 47u8] + n + seq![62u8]);
    assert(d =~= splice(doc, e.start as int, e.end + 1, tag));
}

/// With special names enabled, `$o`, `$c` and `$s` become a literal `{`, `}`
/// and `\`, and `$` vanishes; with them disabled, these names are rendered
/// like any other, by a plugin or as tags.
pub proof fn law_special_forms(doc: Seq<u8>, e: Element, cfg: Config)
    requires
        e.placed(doc.len() as int),
    ensures
        cfg.disable_special_elements ==> dispatch(doc, e, cfg) == render_plain(doc, e, cfg),
        !cfg.disable_special_elements && name(doc, e) == seq![36u8, 111u8] ==> dispatch(doc, e, cfg)
            == Rendering::Replace(splice(doc, e.start as int, e.end + 1, seq![123u8]), e.start + 1),
        !cfg.disable_special_elements && name(doc, e) == seq![36u8, 99u8] ==> dispatch(doc, e, cfg)
            == Rendering::Replace(splice(doc, e.start as int, e.end + 1, seq![125u8]), e.start + 1),
        !cfg.disable_special_elements && name(doc, e) == seq![36u8, 115u8] ==> dispatch(doc, e, cfg)
            == Rendering::Replace(splice(doc, e.start as int, e.end + 1, seq![92u8]), e.start + 1),
        !cfg.disable_special_elements && name(doc, e) == seq![36u8] ==> dispatch(doc, e, cfg)
            == Rendering::Replace(splice(doc, e.start as int, e.end + 1, seq![]), e.start as int),
{
    let n = name(doc, e);
    if n == seq![36u8] {
        assert(n.len() == 1);
        assert(n != seq![36u8, 111u8]);
        assert(n != seq![36u8, 99u8]);
        assert(n != seq![36u8, 115u8]);
        assert(special_literal(n) == Some(Seq::<u8>::empty()));
    }
}

proof fn lemma_claimant_from(ps: Seq<Plugin>, n: Seq<u8>, k: int, i: int)
    requires
        0 <= k <= i < ps.len(),
        claims(ps[i]@, n),
    ensures
        claimant_from(ps, n, k) matches Some(c) && k <= c <= i && claims(ps[c]@, n)
            && forall|m: int| k <= m < c ==> !claims(#[trigger] ps[m]@, n),
    decreases i - k,
{
    if !claims(ps[k]@, n) {
        lemma_claimant_from(ps, n, k + 1, i);
    }
}

/// When several plugins claim a name, the first registered one renders it,
/// and no later one is asked.
pub proof fn law_first_plugin_wins(ps: Seq<Plugin>, n: Seq<u8>, i: int, j: int)
    requires
        0 <= i < j < ps.len(),
        claims(ps[i]@, n),
        claims(ps[j]@, n),
    ensures
        claimant(ps, n) matches Some(c) && c <= i && c != j && claims(ps[c]@, n)
            && forall|m: int| 0 <= m < c ==> !claims(#[trigger] ps[m]@, n),
{
    lemma_claimant_from(ps, n, 0, i);
}

/// A file inclusion asks for the file named by the content, converted first
/// exactly when the attribute words hold `process`; the text given back
/// replaces the whole element unchanged, and scanning resumes after it, so
/// that text is not scanned again.
pub proof fn law_inclusion_splices_verbatim(s: State, cfg: Config, text: Seq<u8>)
    requires
        s.wf(),
        s.pending is None,
        next(s, cfg).1 is Include,
    ensures
        ({
            let t = next(s, cfg).0;
            let e = t.pending.unwrap();
            let after = resumed(t, text);
            &&& t.pending is Some
            &&& t.doc == s.doc
            &&& next(s, cfg).1 == StepModel::Include(content(s.doc, e),
                asks_process(attributes(s.doc, e)))
            &&& after.doc == splice(s.doc, e.start as int, e.end + 1, text)
            &&& after.doc.subrange(e.start as int, after.pos) == text
            &&& after.stack == t.stack
        }),
{
    let t = next(s, cfg).0;
    let e = t.pending.unwrap();
    let after = resumed(t, text);
    assert(after.doc.subrange(e.start as int, after.pos) =~= text);
}

} // verus!
