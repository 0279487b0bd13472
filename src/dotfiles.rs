use vstd::prelude::*;

verus! {

/// A platform family, under the names of the dotfiles manifest.
#[derive(Clone, Copy, Debug, PartialEq, Eq, Hash, Structural)]
pub enum Environment {
    UnixLike,
    Windows,
}

/// One destination or several.
#[derive(Clone, Debug, PartialEq, Eq)]
pub enum Destination {
    Single(String),
    Multi(Vec<String>),
}

/// The same destinations everywhere, or destinations per platform.
#[derive(Clone, Debug, PartialEq, Eq)]
pub enum Target {
    Unified(Destination),
    Platform(Vec<(Environment, Destination)>),
}

/// One entry: a source and where links to it go.
#[derive(Clone, Debug, PartialEq, Eq)]
pub struct Link {
    pub source: String,
    pub target: Target,
}

/// The entries of a dotfiles manifest, in order.
#[derive(Clone, Debug, PartialEq, Eq)]
pub struct Dotfiles {
    pub links: Vec<Link>,
}

} // verus!
