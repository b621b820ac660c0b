//! Element records and the fields the dispatcher reads from the buffer.
use vstd::prelude::*;
use crate::bytes::{is_ws, is_ascii_ws, words, split_words, bytes_eq};

verus! {

/// An element on the open-element stack: the offset of its marker `\` and,
/// once seen, that of its body-open `{`.
#[derive(Clone, Copy, Debug, PartialEq, Eq, Structural)]
pub struct Open {
    pub start: usize,
    pub body: Option<usize>,
}

/// A closed element: offsets of its marker `\`, body-open `{` and body-close `}`.
#[derive(Clone, Copy, Debug, PartialEq, Eq, Structural)]
pub struct Element {
    pub start: usize,
    pub body: usize,
    pub end: usize,
}

impl Element {
    /// Its offsets are ordered and lie inside a buffer of length `len`.
    pub open spec fn placed(self, len: int) -> bool {
        self.start < self.body < self.end < len
    }
}

/// The end of the name that starts at `k`: the first whitespace byte at or
/// after `k`, or `body`, whichever comes first.
pub open spec fn name_end_from(doc: Seq<u8>, k: int, body: int) -> int
    decreases body - k,
{
    if k >= body {
        body
    } else if is_ws(doc[k]) {
        k
    } else {
        name_end_from(doc, k + 1, body)
    }
}

pub open spec fn name_end(doc: Seq<u8>, e: Element) -> int {
    name_end_from(doc, e.start + 1, e.body as int)
}

/// The element's name: the non-whitespace run right after its marker.
pub open spec fn name(doc: Seq<u8>, e: Element) -> Seq<u8> {
    doc.subrange(e.start + 1, name_end(doc, e))
}

/// The element's attributes: what follows the name and one whitespace byte,
/// up to the body-open.
pub open spec fn attributes(doc: Seq<u8>, e: Element) -> Seq<u8> {
    if name_end(doc, e) == e.body {
        seq![]
    } else {
        doc.subrange(name_end(doc, e) + 1, e.body as int)
    }
}

/// The element's content: the bytes strictly between body-open and body-close.
pub open spec fn content(doc: Seq<u8>, e: Element) -> Seq<u8> {
    doc.subrange(e.body + 1, e.end as int)
}

/// The attribute word that asks for an included file to be converted.
pub open spec fn process_word() -> Seq<u8> {
    seq![112u8, 114u8, 111u8, 99u8, 101u8, 115u8, 115u8]
}

/// Whether `process` is one of the whitespace-separated attribute words.
pub open spec fn asks_process(attrs: Seq<u8>) -> bool {
    words(attrs).contains(process_word())
}

pub proof fn lemma_name_end_bounds(doc: Seq<u8>, k: int, body: int)
    requires
        k <= body,
    ensures
        k <= name_end_from(doc, k, body) <= body,
    decreases body - k,
{
    if k < body && !is_ws(doc[k]) {
        lemma_name_end_bounds(doc, k + 1, body);
    }
}

/// Offset of the end of the element's name.
pub fn find_name_end(doc: &[u8], e: Element) -> (r: usize)
    requires
        e.placed(doc@.len() as int),
    ensures
        r == name_end(doc@, e),
        e.start < r <= e.body,
{
    let mut k: usize = e.start + 1;
    proof { lemma_name_end_bounds(doc@, k as int, e.body as int); }
    while k < e.body && !is_ascii_ws(doc[k])
        invariant
            e.placed(doc@.len() as int),
            e.start < k <= e.body,
            name_end_from(doc@, k as int, e.body as int) == name_end(doc@, e),
        decreases e.body - k,
    {
        k = k + 1;
    }
    k
}

/// Whether the attribute words hold `process`.
pub fn has_process(attrs: &[u8]) -> (r: bool)
    ensures
        r == asks_process(attrs@),
{
    let ws = split_words(attrs);
    let word: Vec<u8> = vec![112u8, 114u8, 111u8, 99u8, 101u8, 115u8, 115u8];
    assert(word@ =~= process_word());
    let mut k: usize = 0;
    while k < ws.len()
        invariant
            k <= ws@.len(),
            word@ == process_word(),
            ws@.len() == words(attrs@).len(),
            forall|j: int| 0 <= j < ws@.len() ==> #[trigger] ws@[j]@ == words(attrs@)[j],
            forall|j: int| 0 <= j < k ==> words(attrs@)[j] != process_word(),
        decreases ws@.len() - k,
    {
        let w = ws[k].as_slice();
        assert(w@ == words(attrs@)[k as int]);
        if bytes_eq(w, word.as_slice()) {
            assert(words(attrs@)[k as int] == process_word());
            return true;
        }
        k = k + 1;
    }
    false
}

} // verus!
