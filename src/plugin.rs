//! Plugin handles: the element names an external renderer claims, and the
//! request it is sent to render one element.
use vstd::prelude::*;
use crate::bytes::{trim, trim_start, trim_end, words, split_words, push_all, is_ascii_ws};

verus! {

/// Why a candidate plugin yields no handle.
#[derive(Debug, Clone, Copy, PartialEq, Eq, Structural)]
pub enum DiscoveryError {
    /// Its listing of element names was empty.
    NoElements,
}

/// One external rendering process: how to invoke it and the element names it claims.
pub struct Plugin {
    /// Path or command name of the plugin executable.
    pub path: String,
    /// Element names this plugin claims; never empty.
    handles: Vec<Vec<u8>>,
}

/// Whether one of `names` equals `name`, both trimmed of ASCII whitespace.
pub open spec fn claims(names: Seq<Seq<u8>>, name: Seq<u8>) -> bool {
    exists|j: int| 0 <= j < names.len() && #[trigger] trim(names[j]) == trim(name)
}

/// The separator between the fields of a render request: CR LF CR LF.
pub open spec fn separator() -> Seq<u8> {
    seq![13u8, 10u8, 13u8, 10u8]
}

/// The bytes written to a plugin's standard input to render one element.
pub open spec fn request_bytes(name: Seq<u8>, attributes: Seq<u8>, content: Seq<u8>) -> Seq<u8> {
    name + separator() + attributes + separator() + content
}

impl View for Plugin {
    type V = Seq<Seq<u8>>;

    closed spec fn view(&self) -> Seq<Seq<u8>> {
        self.handles@.map_values(|v: Vec<u8>| v@)
    }
}

/// Bounds `lo..hi` of `s` without its leading and trailing ASCII whitespace.
fn trim_bounds(s: &[u8]) -> (r: (usize, usize))
    ensures
        r.0 <= r.1 <= s@.len(),
        s@.subrange(r.0 as int, r.1 as int) == trim(s@),
{
    let mut lo: usize = 0;
    assert(s@.subrange(0, s@.len() as int) =~= s@);
    while lo < s.len() && is_ascii_ws(s[lo])
        invariant
            lo <= s@.len(),
            trim_start(s@.subrange(lo as int, s@.len() as int)) == trim_start(s@),
        decreases s@.len() - lo,
    {
        assert(s@.subrange(lo as int, s@.len() as int).drop_first()
            =~= s@.subrange(lo + 1, s@.len() as int));
        lo = lo + 1;
    }
    assert(s@.subrange(0, s@.len() as int) =~= s@);
    let mut hi: usize = s.len();
    while hi > lo && is_ascii_ws(s[hi - 1])
        invariant
            lo <= hi <= s@.len(),
            trim_end(s@.subrange(lo as int, hi as int)) == trim(s@),
        decreases hi,
    {
        assert(s@.subrange(lo as int, hi as int).drop_last()
            =~= s@.subrange(lo as int, hi - 1));
        hi = hi - 1;
    }
    (lo, hi)
}

impl Plugin {
    /// The invocation target of this plugin.
    pub closed spec fn command(&self) -> String {
        self.path
    }

    /// Builds the handle of the plugin at `command` from what it printed when
    /// asked for its elements: the names are the whitespace-separated words of
    /// `listing`. A listing without words yields no handle.
    pub fn init(command: String, listing: &[u8]) -> (r: Result<Plugin, DiscoveryError>)
        ensures
            words(listing@).len() == 0 <==> r is Err,
            r is Err ==> r == Err::<Plugin, DiscoveryError>(DiscoveryError::NoElements),
            r matches Ok(p) ==> p.command() == command && p@ == words(listing@),
    {
        let handles = split_words(listing);
        if handles.len() == 0 {
            return Err(DiscoveryError::NoElements);
        }
        let p = Plugin { path: command, handles };
        assert(p@ =~= words(listing@));
        Ok(p)
    }

    /// Whether this plugin claims the element `name`.
    pub fn handles(&self, name: &[u8]) -> (r: bool)
        ensures
            r == claims(self@, name@),
    {
        let (nlo, nhi) = trim_bounds(name);
        let mut k: usize = 0;
        while k < self.handles.len()
            invariant
                k <= self@.len(),
                self@.len() == self.handles@.len(),
                name@.subrange(nlo as int, nhi as int) == trim(name@),
                nlo <= nhi <= name@.len(),
                forall|j: int| 0 <= j < k ==> trim(#[trigger] self@[j]) != trim(name@),
            decreases self@.len() - k,
        {
            let h = self.handles[k].as_slice();
            assert(h@ == self@[k as int]);
            let (lo, hi) = trim_bounds(h);
            let ghost hs = h@.subrange(lo as int, hi as int);
            let ghost ns = name@.subrange(nlo as int, nhi as int);
            let mut eq = hi - lo == nhi - nlo;
            let mut j: usize = 0;
            proof {
                if !eq {
                    assert(hs.len() != ns.len());
                }
            }
            while eq && j < hi - lo
                invariant
                    lo <= hi <= h@.len(),
                    nlo <= nhi <= name@.len(),
                    eq ==> hi - lo == nhi - nlo,
                    j <= hi - lo,
                    hs == h@.subrange(lo as int, hi as int),
                    ns == name@.subrange(nlo as int, nhi as int),
                    hs.len() == hi - lo,
                    ns.len() == nhi - nlo,
                    eq ==> forall|t: int| 0 <= t < j ==> #[trigger] hs[t] == ns[t],
                    !eq ==> hs != ns,
                decreases hi - lo - j,
            {
                if h[lo + j] != name[nlo + j] {
                    assert(hs[j as int] != ns[j as int]);
                    eq = false;
                }
                j = j + 1;
            }
            if eq {
                assert(hs =~= ns);
                return true;
            }
            k = k + 1;
        }
        false
    }

    /// The request that asks this plugin to render one element: the name, the
    /// attributes and the content, separated by CR LF CR LF.
    pub fn request(name: &[u8], attributes: &[u8], content: &[u8]) -> (r: Vec<u8>)
        ensures
            r@ == request_bytes(name@, attributes@, content@),
    {
        let sep: Vec<u8> = vec![13u8, 10u8, 13u8, 10u8];
        assert(sep@ =~= separator());
        let mut r: Vec<u8> = Vec::new();
        push_all(&mut r, name);
        push_all(&mut r, sep.as_slice());
        push_all(&mut r, attributes);
        push_all(&mut r, sep.as_slice());
        push_all(&mut r, content);
        assert(r@ =~= request_bytes(name@, attributes@, content@));
        r
    }
}

} // verus!
