//! The conversion engine: a scanner over a byte buffer that keeps a stack of
//! open elements and rewrites each element in place when it closes.
//!
//! The engine is a state machine. Each call of [`Converter::step`] handles the
//! byte at the cursor and says what happened. Rendering through a plugin and
//! including a file need work that only the caller can do: the machine then
//! parks the closed element and waits for [`Converter::resume`] with the text
//! that replaces it.
use vstd::prelude::*;
use crate::bytes::{splice, splice_vec, copy_range, bytes_eq, push_all};
use crate::config::{Config, claimant};
use crate::element::{
    Open, Element, name, attributes, content, asks_process, find_name_end, has_process,
};

verus! {

/// A structural problem in the input. It is reported and the byte is kept as text.
#[derive(Clone, Copy, Debug, PartialEq, Eq, Structural)]
pub enum Warning {
    /// A `{` while no element is open.
    StrayOpen,
    /// A second `{` for the innermost open element.
    DuplicateOpen,
    /// A `}` while no element is open.
    UnmatchedClose,
    /// A `}` for an element whose body has not started.
    CloseBeforeBody,
    /// A `\%` without a second one after it.
    UnterminatedVerbatim,
}

/// What one step of the machine did, or what it needs from the caller.
#[derive(Debug)]
pub enum Action {
    /// The cursor moved on; call `step` again.
    Continue,
    /// The cursor reached the end of the buffer.
    Done,
    /// A structural warning at the given offset; call `step` again.
    Warn(Warning, usize),
    /// Render the parked element with the plugin at this index of the
    /// configuration, from its name, attributes and content, then `resume`
    /// with the plugin's output.
    Plugin(usize, Vec<u8>, Vec<u8>, Vec<u8>),
    /// Read the file at this path and `resume` with its text (empty if it
    /// cannot be read); when the flag is set, convert that text first with
    /// the same configuration.
    Include(Vec<u8>, bool),
}

/// [`Action`] over mathematical values.
pub enum StepModel {
    Continue,
    Done,
    Warn(Warning, int),
    Plugin(int, Seq<u8>, Seq<u8>, Seq<u8>),
    Include(Seq<u8>, bool),
}

impl View for Action {
    type V = StepModel;

    open spec fn view(&self) -> StepModel {
        match self {
            Action::Continue => StepModel::Continue,
            Action::Done => StepModel::Done,
            Action::Warn(w, at) => StepModel::Warn(*w, *at as int),
            Action::Plugin(k, n, a, c) => StepModel::Plugin(*k as int, n@, a@, c@),
            Action::Include(p, process) => StepModel::Include(p@, *process),
        }
    }
}

/// The state of a conversion: the buffer, the open elements (innermost
/// last), the cursor, and the closed element waiting for its replacement.
pub struct State {
    pub doc: Seq<u8>,
    pub stack: Seq<Open>,
    pub pos: int,
    pub pending: Option<Element>,
}

/// The open element `o` lies wholly before offset `x`.
pub open spec fn before(o: Open, x: int) -> bool {
    &&& o.start < x
    &&& (o.body matches Some(b) ==> o.start < b < x)
}

impl State {
    /// Offsets on the stack are ordered and behind the cursor; a parked
    /// element lies in the buffer, ends at the cursor, and follows every open one.
    pub open spec fn wf(self) -> bool {
        &&& 0 <= self.pos <= self.doc.len() <= usize::MAX
        &&& forall|k: int| 0 <= k < self.stack.len() ==> before(#[trigger] self.stack[k], self.pos)
        &&& forall|i: int, j: int|
            0 <= i < j < self.stack.len() ==> before(#[trigger] self.stack[i], #[trigger] self.stack[j].start as int)
        &&& (self.pending matches Some(e) ==> {
            &&& e.placed(self.doc.len() as int)
            &&& self.pos == e.end
            &&& forall|k: int| 0 <= k < self.stack.len() ==> before(#[trigger] self.stack[k], e.start as int)
        })
    }

    /// Twice the bytes left to scan, plus one while no element is parked.
    /// Every step but the last, and every resume, makes it smaller.
    pub open spec fn progress(self) -> int {
        2 * (self.doc.len() - self.pos) + (if self.pending is None { 1int } else { 0int })
    }
}

/// The two-byte verbatim token `\%` starts at `i`.
pub open spec fn verbatim_at(doc: Seq<u8>, i: int) -> bool {
    0 <= i && i + 1 < doc.len() && doc[i] == 92u8 && doc[i + 1] == 37u8
}

/// The first verbatim token at or after `k`.
pub open spec fn find_verbatim(doc: Seq<u8>, k: int) -> Option<int>
    decreases doc.len() - k,
{
    if k < 0 || k + 1 >= doc.len() {
        None
    } else if verbatim_at(doc, k) {
        Some(k)
    } else {
        find_verbatim(doc, k + 1)
    }
}

/// How a closed element is rendered.
pub enum Rendering {
    /// The buffer after the rewrite, and the offset where scanning resumes.
    Replace(Seq<u8>, int),
    /// By the plugin at this index.
    Plugin(int),
    /// By the file at this path, converted first when the flag is set.
    Include(Seq<u8>, bool),
}

/// The replacement text of the special names `$o`, `$c`, `$s` and `$`.
pub open spec fn special_literal(n: Seq<u8>) -> Option<Seq<u8>> {
    if n == seq![36u8, 111u8] {
        Some(seq![123u8])
    } else if n == seq![36u8, 99u8] {
        Some(seq![125u8])
    } else if n == seq![36u8, 115u8] {
        Some(seq![92u8])
    } else if n == seq![36u8] {
        Some(Seq::<u8>::empty())
    } else {
        None
    }
}

/// The special name `$i`: the inclusion of a file.
pub open spec fn include_name() -> Seq<u8> {
    seq![36u8, 105u8]
}

/// The closing tag `</n>`.
pub open spec fn close_tag(n: Seq<u8>) -> Seq<u8> {
    seq![60u8, 47u8] + n + seq![62u8]
}

/// The generic rendering: `<` at the marker, and either `/>` over the body
/// delimiters of an empty element or `>` at the body-open and `</name>` in
/// place of the body-close.
pub open spec fn render_generic(doc: Seq<u8>, e: Element, long_empty: bool) -> Rendering {
    if content(doc, e).len() == 0 && !long_empty {
        Rendering::Replace(
            doc.update(e.start as int, 60u8).update(e.body as int, 47u8).update(e.end as int, 62u8),
            e.end + 1,
        )
    } else {
        let n = name(doc, e);
        Rendering::Replace(
            splice(doc.update(e.start as int, 60u8).update(e.body as int, 62u8), e.end as int, e.end + 1, close_tag(n)),
            e.end + 3 + n.len(),
        )
    }
}

/// Rendering when no special name applies: the first plugin that claims the
/// name, else the generic tags.
pub open spec fn render_plain(doc: Seq<u8>, e: Element, cfg: Config) -> Rendering {
    match claimant(cfg.plugins@, name(doc, e)) {
        Some(k) => Rendering::Plugin(k),
        None => render_generic(doc, e, cfg.long_empty),
    }
}

/// How the closed element `e` of `doc` is rendered under `cfg`.
pub open spec fn dispatch(doc: Seq<u8>, e: Element, cfg: Config) -> Rendering {
    let n = name(doc, e);
    if !cfg.disable_special_elements && special_literal(n) is Some {
        let t = special_literal(n).unwrap();
        Rendering::Replace(splice(doc, e.start as int, e.end + 1, t), e.start + t.len())
    } else if !cfg.disable_special_elements && n == include_name() {
        Rendering::Include(content(doc, e), asks_process(attributes(doc, e)))
    } else {
        render_plain(doc, e, cfg)
    }
}

/// `s` with the cursor moved one byte on.
pub open spec fn advance(s: State) -> State {
    State { pos: s.pos + 1, ..s }
}

/// What one step does to `s`, and what it reports.
pub open spec fn next(s: State, cfg: Config) -> (State, StepModel) {
    let doc = s.doc;
    let i = s.pos;
    if i >= doc.len() {
        (s, StepModel::Done)
    } else if verbatim_at(doc, i) {
        let d = splice(doc, i, i + 2, seq![]);
        match find_verbatim(d, i) {
            Some(k) => (State { doc: splice(d, k, k + 2, seq![]), ..s }, StepModel::Continue),
            None => (State { doc: d, ..s }, StepModel::Warn(Warning::UnterminatedVerbatim, i)),
        }
    } else if doc[i] == 92u8 {
        (
            State { stack: s.stack.push(Open { start: i as usize, body: None }), pos: i + 1, ..s },
            StepModel::Continue,
        )
    } else if doc[i] == 123u8 {
        if s.stack.len() == 0 {
            (advance(s), StepModel::Warn(Warning::StrayOpen, i))
        } else if s.stack.last().body is Some {
            (advance(s), StepModel::Warn(Warning::DuplicateOpen, i))
        } else {
            let top = Open { start: s.stack.last().start, body: Some(i as usize) };
            (
                State { stack: s.stack.update(s.stack.len() - 1, top), pos: i + 1, ..s },
                StepModel::Continue,
            )
        }
    } else if doc[i] == 125u8 {
        if s.stack.len() == 0 {
            (advance(s), StepModel::Warn(Warning::UnmatchedClose, i))
        } else if s.stack.last().body is None {
            (advance(s), StepModel::Warn(Warning::CloseBeforeBody, i))
        } else {
            let e = Element { start: s.stack.last().start, body: s.stack.last().body.unwrap(), end: i as usize };
            let rest = s.stack.drop_last();
            match dispatch(doc, e, cfg) {
                Rendering::Replace(d, c) => (
                    State { doc: d, stack: rest, pos: c, pending: None },
                    StepModel::Continue,
                ),
                Rendering::Plugin(k) => (
                    State { stack: rest, pending: Some(e), ..s },
                    StepModel::Plugin(k, name(doc, e), attributes(doc, e), content(doc, e)),
                ),
                Rendering::Include(p, process) => (
                    State { stack: rest, pending: Some(e), ..s },
                    StepModel::Include(p, process),
                ),
            }
        }
    } else {
        (advance(s), StepModel::Continue)
    }
}

/// The parked element of `s` replaced by `text`, with the cursor just past it.
pub open spec fn resumed(s: State, text: Seq<u8>) -> State {
    let e = s.pending.unwrap();
    State {
        doc: splice(s.doc, e.start as int, e.end + 1, text),
        stack: s.stack,
        pos: e.start + text.len(),
        pending: None,
    }
}

} // verus!

verus! {

/// What rendering a closed element did to the buffer.
enum Outcome {
    /// The element was rewritten; scanning resumes at this offset.
    Replaced(usize),
    /// The plugin at this index claims the element.
    Plugin(usize),
    /// The element includes the file at this path.
    Include(Vec<u8>, bool),
}

/// The name, attributes and content of `e`.
pub fn element_fields(doc: &[u8], e: Element) -> (r: (Vec<u8>, Vec<u8>, Vec<u8>))
    requires
        e.placed(doc@.len() as int),
    ensures
        r.0@ == name(doc@, e),
        r.1@ == attributes(doc@, e),
        r.2@ == content(doc@, e),
{
    let ne = find_name_end(doc, e);
    let n = copy_range(doc, e.start + 1, ne);
    let a = if ne == e.body {
        Vec::new()
    } else {
        copy_range(doc, ne + 1, e.body)
    };
    let c = copy_range(doc, e.body + 1, e.end);
    assert(ne == e.body ==> a@ =~= attributes(doc@, e));
    (n, a, c)
}

/// The literal that a special name stands for, if it is one of `$o`, `$c`, `$s`, `$`.
fn special_text(n: &[u8]) -> (r: Option<Vec<u8>>)
    ensures
        r matches Some(t) ==> special_literal(n@) == Some(t@),
        r is None ==> special_literal(n@) is None,
{
    let open_name: Vec<u8> = vec![36u8, 111u8];
    let close_name: Vec<u8> = vec![36u8, 99u8];
    let marker_name: Vec<u8> = vec![36u8, 115u8];
    let comment_name: Vec<u8> = vec![36u8];
    assert(open_name@ =~= seq![36u8, 111u8]);
    assert(close_name@ =~= seq![36u8, 99u8]);
    assert(marker_name@ =~= seq![36u8, 115u8]);
    assert(comment_name@ =~= seq![36u8]);
    if bytes_eq(n, open_name.as_slice()) {
        let t: Vec<u8> = vec![123u8];
        assert(t@ =~= seq![123u8]);
        Some(t)
    } else if bytes_eq(n, close_name.as_slice()) {
        let t: Vec<u8> = vec![125u8];
        assert(t@ =~= seq![125u8]);
        Some(t)
    } else if bytes_eq(n, marker_name.as_slice()) {
        let t: Vec<u8> = vec![92u8];
        assert(t@ =~= seq![92u8]);
        Some(t)
    } else if bytes_eq(n, comment_name.as_slice()) {
        let t: Vec<u8> = Vec::new();
        assert(t@ =~= Seq::<u8>::empty());
        Some(t)
    } else {
        None
    }
}

/// Renders the closed element `e` in place, as [`dispatch`] says.
fn render(doc: &mut Vec<u8>, e: Element, cfg: &Config) -> (r: Outcome)
    requires
        e.placed(old(doc)@.len() as int),
    ensures
        match dispatch(old(doc)@, e, *cfg) {
            Rendering::Replace(d, c) => r == Outcome::Replaced(c as usize) && final(doc)@ == d
                && e.start <= c <= d.len() && d.len() <= usize::MAX,
            Rendering::Plugin(k) => r == Outcome::Plugin(k as usize) && final(doc)@ == old(doc)@
                && 0 <= k <= usize::MAX,
            Rendering::Include(p, process) => (r matches Outcome::Include(q, f) && q@ == p
                && f == process) && final(doc)@ == old(doc)@,
        },
{
    let ghost d0 = doc@;
    let _len = doc.len();
    let (n, a, c) = element_fields(doc.as_slice(), e);
    if !cfg.disable_special_elements {
        match special_text(n.as_slice()) {
            Some(t) => {
                let d = splice_vec(doc.as_slice(), e.start, e.end + 1, t.as_slice());
                assert(d@.len() == e.start + t@.len() + (d0.len() - e.end - 1));
                *doc = d;
                let _l = doc.len();
                return Outcome::Replaced(e.start + t.len());
            },
            None => {},
        }
        let file_name: Vec<u8> = vec![36u8, 105u8];
        assert(file_name@ =~= include_name());
        if bytes_eq(n.as_slice(), file_name.as_slice()) {
            let process = has_process(a.as_slice());
            return Outcome::Include(c, process);
        }
    }
    match cfg.claimant(n.as_slice()) {
        Some(k) => {
            assert(claimant(cfg.plugins@, n@) == Some(k as int));
            return Outcome::Plugin(k);
        },
        None => {},
    }
    if c.len() == 0 && !cfg.long_empty {
        doc.set(e.start, 60u8);
        doc.set(e.body, 47u8);
        doc.set(e.end, 62u8);
        let _l = doc.len();
        Outcome::Replaced(e.end + 1)
    } else {
        doc.set(e.start, 60u8);
        doc.set(e.body, 62u8);
        let mut tag: Vec<u8> = vec![60u8, 47u8];
        push_all(&mut tag, n.as_slice());
        tag.push(62u8);
        assert(tag@ =~= close_tag(n@));
        let d = splice_vec(doc.as_slice(), e.end, e.end + 1, tag.as_slice());
        let dl = d.len();
        assert(dl == e.end + tag@.len() + (d0.len() - e.end - 1));
        let cursor = e.end + tag.len();
        *doc = d;
        let _l = doc.len();
        Outcome::Replaced(cursor)
    }
}

} // verus!

verus! {

/// The offset of the first verbatim token at or after `k`.
fn find_verbatim_from(doc: &[u8], k: usize) -> (r: Option<usize>)
    ensures
        r matches Some(j) ==> find_verbatim(doc@, k as int) == Some(j as int),
        r is None ==> find_verbatim(doc@, k as int) is None,
{
    let len = doc.len();
    let mut j: usize = k;
    while j < len && j + 1 < len
        invariant
            len == doc@.len(),
            k <= j,
            find_verbatim(doc@, j as int) == find_verbatim(doc@, k as int),
        decreases len - j,
    {
        if doc[j] == 92u8 && doc[j + 1] == 37u8 {
            return Some(j);
        }
        j = j + 1;
    }
    None
}

proof fn lemma_find_verbatim_bounds(doc: Seq<u8>, k: int)
    requires
        0 <= k,
    ensures
        find_verbatim(doc, k) matches Some(j) ==> k <= j && j + 1 < doc.len() && verbatim_at(doc, j),
    decreases doc.len() - k,
{
    if k + 1 < doc.len() && !verbatim_at(doc, k) {
        lemma_find_verbatim_bounds(doc, k + 1);
    }
}

/// A conversion in progress over one buffer.
pub struct Converter {
    doc: Vec<u8>,
    stack: Vec<Open>,
    pos: usize,
    pending: Option<Element>,
}

impl View for Converter {
    type V = State;

    closed spec fn view(&self) -> State {
        State { doc: self.doc@, stack: self.stack@, pos: self.pos as int, pending: self.pending }
    }
}

impl Converter {
    /// Starts converting `doc` from its first byte, with no element open.
    pub fn new(doc: Vec<u8>) -> (r: Converter)
        ensures
            r@ == (State { doc: doc@, stack: Seq::<Open>::empty(), pos: 0, pending: None }),
            r@.wf(),
    {
        let _l = doc.len();
        Converter { doc, stack: Vec::new(), pos: 0, pending: None }
    }

    /// The buffer as it stands.
    pub fn doc(&self) -> (r: &Vec<u8>)
        ensures
            r@ == self@.doc,
    {
        &self.doc
    }

    /// The buffer, once the conversion is over.
    pub fn into_doc(self) -> (r: Vec<u8>)
        ensures
            r@ == self@.doc,
    {
        self.doc
    }

    /// Whether a closed element waits for its replacement.
    pub fn is_parked(&self) -> (r: bool)
        ensures
            r == self@.pending is Some,
    {
        self.pending.is_some()
    }

    /// Handles the byte at the cursor.
    pub fn step(&mut self, cfg: &Config) -> (r: Action)
        requires
            old(self)@.wf(),
            old(self)@.pending is None,
        ensures
            (final(self)@, r@) == next(old(self)@, *cfg),
            final(self)@.wf(),
            r@ is Done || final(self)@.progress() < old(self)@.progress(),
    {
        let ghost s0 = self@;
        let i = self.pos;
        let len = self.doc.len();
        if i >= len {
            return Action::Done;
        }
        let c = self.doc[i];
        if c == 92u8 && i + 1 < len && self.doc[i + 1] == 37u8 {
            let none: Vec<u8> = Vec::new();
            let d = splice_vec(self.doc.as_slice(), i, i + 2, none.as_slice());
            assert(none@ =~= Seq::<u8>::empty());
            proof { lemma_find_verbatim_bounds(d@, i as int); }
            match find_verbatim_from(d.as_slice(), i) {
                Some(k) => {
                    self.doc = splice_vec(d.as_slice(), k, k + 2, none.as_slice());
                    Action::Continue
                },
                None => {
                    self.doc = d;
                    Action::Warn(Warning::UnterminatedVerbatim, i)
                },
            }
        } else if c == 92u8 {
            self.stack.push(Open { start: i, body: None });
            self.pos = i + 1;
            Action::Continue
        } else if c == 123u8 {
            let n = self.stack.len();
            if n == 0 {
                self.pos = i + 1;
                return Action::Warn(Warning::StrayOpen, i);
            }
            let top = self.stack[n - 1];
            if top.body.is_some() {
                self.pos = i + 1;
                return Action::Warn(Warning::DuplicateOpen, i);
            }
            self.stack.set(n - 1, Open { start: top.start, body: Some(i) });
            self.pos = i + 1;
            Action::Continue
        } else if c == 125u8 {
            let n = self.stack.len();
            if n == 0 {
                self.pos = i + 1;
                return Action::Warn(Warning::UnmatchedClose, i);
            }
            let top = self.stack[n - 1];
            match top.body {
                None => {
                    self.pos = i + 1;
                    Action::Warn(Warning::CloseBeforeBody, i)
                },
                Some(b) => {
                    let e = Element { start: top.start, body: b, end: i };
                    assert(before(s0.stack[n - 1], i as int));
                    self.stack.pop();
                    assert(self.stack@ =~= s0.stack.drop_last());
                    assert forall|k: int| 0 <= k < self.stack@.len() implies
                        before(#[trigger] self.stack@[k], e.start as int) by {
                        assert(before(s0.stack[k], s0.stack[n - 1].start as int));
                    }
                    let (nm, at, ct) = element_fields(self.doc.as_slice(), e);
                    match render(&mut self.doc, e, cfg) {
                        Outcome::Replaced(cursor) => {
                            self.pos = cursor;
                            Action::Continue
                        },
                        Outcome::Plugin(k) => {
                            self.pending = Some(e);
                            Action::Plugin(k, nm, at, ct)
                        },
                        Outcome::Include(p, process) => {
                            self.pending = Some(e);
                            Action::Include(p, process)
                        },
                    }
                },
            }
        } else {
            self.pos = i + 1;
            Action::Continue
        }
    }

    /// Replaces the parked element by `text` and moves the cursor past it:
    /// the replacement is not scanned again.
    pub fn resume(&mut self, text: &[u8])
        requires
            old(self)@.wf(),
            old(self)@.pending is Some,
        ensures
            final(self)@ == resumed(old(self)@, text@),
            final(self)@.wf(),
            final(self)@.progress() < old(self)@.progress(),
    {
        let ghost s0 = self@;
        let _len = self.doc.len();
        match self.pending {
            Some(e) => {
                let d = splice_vec(self.doc.as_slice(), e.start, e.end + 1, text);
                let dl = d.len();
                assert(dl == e.start + text@.len() + (s0.doc.len() - e.end - 1));
                self.doc = d;
                self.pos = e.start + text.len();
                self.pending = None;
                assert forall|k: int| 0 <= k < self.stack@.len() implies
                    before(#[trigger] self.stack@[k], self.pos as int) by {
                    assert(before(s0.stack[k], e.start as int));
                }
            },
            None => {},
        }
    }
}

} // verus!
