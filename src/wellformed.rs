//! Well-formed input: every marker gets a body, bodies nest like parentheses.
//! Such input, converted with tags alone, loses every structural byte.
use vstd::prelude::*;
use crate::bytes::splice;
use crate::config::Config;
use crate::element::{Open, Element, name, content, lemma_name_end_bounds};
use crate::convert::{before, State, dispatch, render_generic, next, verbatim_at, close_tag};

verus! {

/// The marker `\` and the body delimiters `{` and `}`.
pub open spec fn structural(b: u8) -> bool {
    b == 92u8 || b == 123u8 || b == 125u8
}

/// `s` closes, in order, the open elements described by `open` (innermost
/// last; `true` once its body has started): markers appear only at the top
/// level or inside a body and are never the verbatim token, each marker is
/// followed by its body-open before any other structural byte, and each
/// body-close ends the innermost body.
pub open spec fn balanced(s: Seq<u8>, open: Seq<bool>) -> bool
    decreases s.len(),
{
    if s.len() == 0 {
        open.len() == 0
    } else if s[0] == 92u8 {
        &&& s.len() > 1
        &&& s[1] != 37u8
        &&& (open.len() == 0 || open.last())
        &&& balanced(s.drop_first(), open.push(false))
    } else if s[0] == 123u8 {
        &&& open.len() > 0
        &&& !open.last()
        &&& balanced(s.drop_first(), open.update(open.len() - 1, true))
    } else if s[0] == 125u8 {
        &&& open.len() > 0
        &&& open.last()
        &&& balanced(s.drop_first(), open.drop_last())
    } else {
        balanced(s.drop_first(), open)
    }
}

/// Input in which every element marker has a body-open and a matching
/// body-close, strictly nested.
pub open spec fn well_formed(s: Seq<u8>) -> bool {
    balanced(s, seq![])
}

/// The conversion of `doc` before its first step.
pub open spec fn start(doc: Seq<u8>) -> State {
    State { doc, stack: seq![], pos: 0, pending: None }
}

/// The state after `fuel` steps from `s`.
pub open spec fn run(s: State, cfg: Config, fuel: nat) -> State
    decreases fuel,
{
    if fuel == 0 { s } else { run(next(s, cfg).0, cfg, (fuel - 1) as nat) }
}

pub open spec fn shape(stack: Seq<Open>) -> Seq<bool> {
    stack.map_values(|o: Open| o.body is Some)
}

/// Offset `j` is the marker or body-open of an open element.
pub open spec fn marked(stack: Seq<Open>, j: int) -> bool {
    exists|k: int| 0 <= k < stack.len() && (#[trigger] stack[k].start == j || stack[k].body == Some(j as usize))
}

pub open spec fn inv(s: State) -> bool {
    &&& s.wf()
    &&& s.pending is None
    &&& balanced(s.doc.subrange(s.pos, s.doc.len() as int), shape(s.stack))
    &&& forall|j: int| 0 <= j < s.pos && structural(#[trigger] s.doc[j]) ==> marked(s.stack, j)
}

/// Tags alone render: no special names, no plugins.
pub open spec fn tags_only(cfg: Config) -> bool {
    cfg.disable_special_elements && cfg.plugins@.len() == 0
}

proof fn lemma_close(s: State, cfg: Config)
    requires
        inv(s),
        tags_only(cfg),
        s.pos < s.doc.len(),
        s.doc[s.pos] == 125u8,
        s.stack.len() > 0,
        s.stack.last().body is Some,
        next(s, cfg).0.doc.len() <= usize::MAX,
    ensures
        inv(next(s, cfg).0),
        next(s, cfg).0.progress() < s.progress(),
        next(s, cfg).1 is Continue,
{
    let doc = s.doc;
    let i = s.pos;
    let n = s.stack.len() - 1;
    let top = s.stack[n];
    let e = Element { start: top.start, body: top.body.unwrap(), end: i as usize };
    let rest = s.stack.drop_last();
    assert(before(top, i));
    assert(dispatch(doc, e, cfg) == render_generic(doc, e, cfg.long_empty));
    let suffix = doc.subrange(i, doc.len() as int);
    assert(suffix[0] == 125u8);
    assert(suffix.drop_first() =~= doc.subrange(i + 1, doc.len() as int));
    assert(shape(s.stack).last() == true);
    assert(shape(s.stack).drop_last() =~= shape(rest));
    let t = next(s, cfg).0;
    assert forall|k: int| 0 <= k < rest.len() implies before(#[trigger] rest[k], e.start as int) by {
        assert(before(s.stack[k], s.stack[n].start as int));
    }
    // bytes between the marker and the body-close are no structural bytes
    assert forall|j: int| e.start < j < e.end && j != e.body implies !structural(#[trigger] doc[j]) by {
        if structural(doc[j]) {
            assert(marked(s.stack, j));
            let k = choose|k: int| 0 <= k < s.stack.len() && (#[trigger] s.stack[k].start == j || s.stack[k].body == Some(j as usize));
            if k < n {
                assert(before(s.stack[k], s.stack[n].start as int));
            }
        }
    }
    let nm = name(doc, e);
    let short = content(doc, e).len() == 0 && !cfg.long_empty;
    let u = if short {
        doc.update(e.start as int, 60u8).update(e.body as int, 47u8)
    } else {
        doc.update(e.start as int, 60u8).update(e.body as int, 62u8)
    };
    let tag = if short { seq![62u8] } else { close_tag(nm) };
    let d = splice(u, e.end as int, e.end + 1, tag);
    let c = e.end + tag.len();
    if short {
        assert(d =~= u.update(e.end as int, 62u8));
    }
    assert(t == State { doc: d, stack: rest, pos: c, pending: None });
    assert(t.doc.subrange(t.pos, t.doc.len() as int) =~= doc.subrange(i + 1, doc.len() as int));
    assert forall|j: int| 0 <= j < t.pos && structural(#[trigger] t.doc[j]) implies marked(t.stack, j) by {
        if j < e.start {
            assert(t.doc[j] == doc[j]);
            assert(marked(s.stack, j));
            let k = choose|k: int| 0 <= k < s.stack.len() && (#[trigger] s.stack[k].start == j || s.stack[k].body == Some(j as usize));
            assert(k < n);
            assert(rest[k] == s.stack[k]);
        } else if j >= e.end {
            assert(t.doc[j] == tag[j - e.end]);
            if !short {
                let q = j - e.end;
                lemma_name_end_bounds(doc, e.start + 1, e.body as int);
                if 2 <= q < 2 + nm.len() {
                    assert(tag[q] == nm[q - 2]);
                    assert(nm[q - 2] == doc[e.start + 1 + q - 2]);
                } else if q == 0 {
                    assert(tag[q] == 60u8);
                } else if q == 1 {
                    assert(tag[q] == 47u8);
                } else {
                    assert(tag[q] == 62u8);
                }
            }
        } else {
            assert(false);
        }
    }
}

proof fn lemma_step(s: State, cfg: Config)
    requires
        inv(s),
        tags_only(cfg),
        s.pos < s.doc.len(),
        next(s, cfg).0.doc.len() <= usize::MAX,
    ensures
        inv(next(s, cfg).0),
        next(s, cfg).0.progress() < s.progress(),
        next(s, cfg).1 is Continue,
{
    let doc = s.doc;
    let i = s.pos;
    let suffix = doc.subrange(i, doc.len() as int);
    let sh = shape(s.stack);
    assert(suffix[0] == doc[i]);
    assert(suffix.drop_first() =~= doc.subrange(i + 1, doc.len() as int));
    let t = next(s, cfg).0;
    if doc[i] == 92u8 {
        assert(suffix[1] == doc[i + 1]);
        assert(!verbatim_at(doc, i));
        let o = Open { start: i as usize, body: None };
        assert(t.stack == s.stack.push(o));
        assert(shape(t.stack) =~= sh.push(false));
        assert forall|j: int| 0 <= j < t.pos && structural(#[trigger] t.doc[j]) implies marked(t.stack, j) by {
            if j == i {
                assert(t.stack[s.stack.len() as int].start == j);
            } else {
                assert(marked(s.stack, j));
                let k = choose|k: int| 0 <= k < s.stack.len() && (#[trigger] s.stack[k].start == j || s.stack[k].body == Some(j as usize));
                assert(t.stack[k] == s.stack[k]);
            }
        }
    } else if doc[i] == 123u8 {
        let n = s.stack.len() - 1;
        let top = Open { start: s.stack[n].start, body: Some(i as usize) };
        assert(sh.last() == false);
        assert(t.stack == s.stack.update(n, top));
        assert(shape(t.stack) =~= sh.update(n, true));
        assert forall|j: int| 0 <= j < t.pos && structural(#[trigger] t.doc[j]) implies marked(t.stack, j) by {
            if j == i {
                assert(t.stack[n].start == s.stack[n].start);
                assert(t.stack[n].body == Some(j as usize));
            } else {
                assert(marked(s.stack, j));
                let k = choose|k: int| 0 <= k < s.stack.len() && (#[trigger] s.stack[k].start == j || s.stack[k].body == Some(j as usize));
                if k != n {
                    assert(t.stack[k] == s.stack[k]);
                    assert(t.stack[k].start == s.stack[k].start);
                } else {
                    assert(t.stack[k].start == j);
                }
            }
        }
        assert forall|a: int, b: int| 0 <= a < b < t.stack.len() implies
            before(#[trigger] t.stack[a], #[trigger] t.stack[b].start as int) by {
            assert(before(s.stack[a], s.stack[b].start as int));
        }
    } else if doc[i] == 125u8 {
        assert(sh.last() == true);
        lemma_close(s, cfg);
    } else {
        assert(t.stack == s.stack);
    }
}

proof fn lemma_run(s: State, cfg: Config, fuel: nat)
    requires
        inv(s),
        tags_only(cfg),
        fuel >= s.progress(),
        forall|f: nat| f <= fuel ==> (#[trigger] run(s, cfg, f)).doc.len() <= usize::MAX,
    ensures
        inv(run(s, cfg, fuel)),
        run(s, cfg, fuel).pos == run(s, cfg, fuel).doc.len(),
    decreases fuel,
{
    if s.pos < s.doc.len() {
        assert(run(next(s, cfg).0, cfg, 0) == next(s, cfg).0);
        assert(run(s, cfg, 1) == next(s, cfg).0);
        lemma_step(s, cfg);
        let t = next(s, cfg).0;
        let g = (fuel - 1) as nat;
        assert forall|f: nat| f <= g implies (#[trigger] run(t, cfg, f)).doc.len() <= usize::MAX by {
            assert(run(s, cfg, f + 1) == run(t, cfg, f));
        }
        lemma_run(t, cfg, g);
    } else {
        lemma_run_done(s, cfg, fuel);
    }
}

proof fn lemma_run_done(s: State, cfg: Config, fuel: nat)
    requires
        s.pos >= s.doc.len(),
    ensures
        run(s, cfg, fuel) == s,
    decreases fuel,
{
    if fuel > 0 {
        lemma_run_done(s, cfg, (fuel - 1) as nat);
    }
}

/// Well-formed input, converted with tags alone, comes out in at most
/// `2 * len + 1` steps with no marker and no body delimiter left, every
/// element rendered as tags and nothing left open. The hypothesis on lengths
/// holds of every run of the machine: its buffer is a vector.
pub proof fn law_well_formed_input_converts_cleanly(input: Seq<u8>, cfg: Config)
    requires
        well_formed(input),
        tags_only(cfg),
        forall|f: nat| f <= 2 * input.len() + 1 ==>
            (#[trigger] run(start(input), cfg, f)).doc.len() <= usize::MAX,
    ensures
        ({
            let t = run(start(input), cfg, (2 * input.len() + 1) as nat);
            &&& next(t, cfg).1 is Done
            &&& t.stack.len() == 0
            &&& forall|j: int| 0 <= j < t.doc.len() ==> !structural(#[trigger] t.doc[j])
        }),
{
    let s = start(input);
    assert(s.doc.subrange(0, input.len() as int) =~= input);
    assert(shape(s.stack) =~= Seq::<bool>::empty());
    assert(run(s, cfg, 0) == s);
    lemma_run(s, cfg, (2 * input.len() + 1) as nat);
    let t = run(s, cfg, (2 * input.len() + 1) as nat);
    assert(t.doc.subrange(t.pos, t.doc.len() as int) =~= Seq::<u8>::empty());
    assert(shape(t.stack).len() == 0);
    assert forall|j: int| 0 <= j < t.doc.len() implies !structural(#[trigger] t.doc[j]) by {
        if structural(t.doc[j]) {
            assert(marked(t.stack, j));
        }
    }
}

} // verus!
