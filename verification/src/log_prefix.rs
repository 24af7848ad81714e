//! Prefixes that tell which part of the daemon a message comes from.
use vstd::prelude::*;

verus! {

/// A type whose messages carry a fixed prefix.
pub trait LogPrefix {
    /// The prefix, as characters.
    spec fn prefix_spec(&self) -> Seq<char>;

    /// The prefix.
    fn log_prefix(&self) -> (r: String)
        ensures
            r@ == self.prefix_spec(),
    ;

    /// `msg` behind the prefix: `"<prefix>: <msg>"`.
    fn log(&self, msg: &str) -> (r: String)
        ensures
            r@ == self.prefix_spec() + ": "@ + msg@,
    {
        let mut s = self.log_prefix();
        s.append(": ");
        s.append(msg);
        s
    }
}

} // verus!
