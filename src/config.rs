//! The configuration shared by every conversion of one run.
use vstd::prelude::*;
use crate::plugin::{Plugin, claims};

verus! {

/// What one run converts, and how.
pub struct Config {
    /// Source: a file path, or "-" for standard input.
    pub src: String,
    /// Destination: a file path, or "-" for standard output.
    pub dst: String,
    /// Render empty elements in long form (`<a></a>`) instead of `<a/>`.
    pub long_empty: bool,
    /// Do not interpret the special element names `$`, `$o`, `$c`, `$s`, `$i`.
    pub disable_special_elements: bool,
    /// Plugins, consulted in this order.
    pub plugins: Vec<Plugin>,
}

/// The first plugin at index `k` or later that claims `name`.
pub open spec fn claimant_from(ps: Seq<Plugin>, name: Seq<u8>, k: int) -> Option<int>
    decreases ps.len() - k,
{
    if k < 0 || k >= ps.len() {
        None
    } else if claims(ps[k]@, name) {
        Some(k)
    } else {
        claimant_from(ps, name, k + 1)
    }
}

/// The first registered plugin that claims `name`, if any.
pub open spec fn claimant(ps: Seq<Plugin>, name: Seq<u8>) -> Option<int> {
    claimant_from(ps, name, 0)
}

impl Config {
    /// The index of the first plugin, in registration order, that claims `name`.
    pub fn claimant(&self, name: &[u8]) -> (r: Option<usize>)
        ensures
            r matches Some(k) ==> Some(k as int) == claimant(self.plugins@, name@),
            r is None ==> claimant(self.plugins@, name@) is None,
    {
        let mut k: usize = 0;
        while k < self.plugins.len()
            invariant
                k <= self.plugins@.len(),
                claimant_from(self.plugins@, name@, k as int) == claimant(self.plugins@, name@),
            decreases self.plugins@.len() - k,
        {
            if self.plugins[k].handles(name) {
                return Some(k);
            }
            k = k + 1;
        }
        None
    }
}

} // verus!
