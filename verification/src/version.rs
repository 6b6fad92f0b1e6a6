//! Site versions: a stable name, the directory the version is served from,
//! and the strategy that routes new visitors to it.

use vstd::prelude::*;

use crate::strategy::Strategy;
use crate::text::str_eq;

verus! {

/// The stable name of a deployed site version. The name doubles as the
/// version cookie's value.
#[derive(Debug)]
pub struct VersionName(String);

impl View for VersionName {
    type V = Seq<char>;

    closed spec fn view(&self) -> Seq<char> {
        self.0@
    }
}

impl Clone for VersionName {
    fn clone(&self) -> (r: Self)
        ensures
            r@ == self@,
    {
        VersionName(self.0.clone())
    }
}

impl VersionName {
    /// Wraps a string as a version name.
    pub fn new(name: String) -> (r: Self)
        ensures
            r@ == name@,
    {
        VersionName(name)
    }

    /// Whether this name reads exactly like `other`.
    pub fn matches(&self, other: &str) -> (r: bool)
        ensures
            r <==> self@ == other@,
    {
        str_eq(self.0.as_str(), other)
    }

    /// The name as a string slice.
    pub fn as_str(&self) -> (r: &str)
        ensures
            r@ == self@,
    {
        self.0.as_str()
    }
}

/// One deployed version of the site: its name, the directory its files
/// live under (relative to the versions directory), and its split strategy.
#[derive(Debug)]
pub struct Version {
    pub name: VersionName,
    pub web_root: String,
    pub strategy: Strategy,
}

impl Clone for Version {
    fn clone(&self) -> (r: Self)
        ensures
            r.name@ == self.name@,
            r.web_root@ == self.web_root@,
            r.strategy@ == self.strategy@,
    {
        Version {
            name: self.name.clone(),
            web_root: self.web_root.clone(),
            strategy: self.strategy.clone(),
        }
    }
}

} // verus!
