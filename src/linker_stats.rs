use vstd::prelude::*;

use crate::paths::{decimal, decimal_string};

verus! {

/// Counts of the items that were linked and of the links that were created.
#[derive(Debug)]
pub struct LinkerStats {
    linked_items: u32,
    links_created: u32,
}

impl LinkerStats {
    pub closed spec fn items(&self) -> nat {
        self.linked_items as nat
    }

    pub closed spec fn links(&self) -> nat {
        self.links_created as nat
    }

    /// Counts that start at zero.
    pub fn new() -> (r: LinkerStats)
        ensures
            r.items() == 0,
            r.links() == 0,
    {
        LinkerStats { linked_items: 0, links_created: 0 }
    }

    /// Adds the counts of `other` to these.
    pub fn aggregate(&mut self, other: &LinkerStats)
        requires
            old(self).items() + other.items() <= u32::MAX,
            old(self).links() + other.links() <= u32::MAX,
        ensures
            final(self).items() == old(self).items() + other.items(),
            final(self).links() == old(self).links() + other.links(),
    {
        self.linked_items = self.linked_items + other.linked_items;
        self.links_created = self.links_created + other.links_created;
    }

    /// Counts one more item.
    pub fn new_item(&mut self)
        requires
            old(self).items() < u32::MAX,
        ensures
            final(self).items() == old(self).items() + 1,
            final(self).links() == old(self).links(),
    {
        self.linked_items = self.linked_items + 1;
    }

    /// Counts one more link created for an item.
    pub fn link_created(&mut self)
        requires
            old(self).links() < u32::MAX,
        ensures
            final(self).items() == old(self).items(),
            final(self).links() == old(self).links() + 1,
    {
        self.links_created = self.links_created + 1;
    }

    /// The counts as text, one per line: `items: <n>` and `links: <n>`.
    pub fn to_string(&self) -> (r: String)
        ensures
            r@ == "\nitems: "@ + decimal(self.items()) + "\nlinks: "@ + decimal(self.links()) + "\n"@,
    {
        proof {
            reveal_strlit("\nitems: ");
            reveal_strlit("\nlinks: ");
            reveal_strlit("\n");
        }
        let mut r = String::from_str("\nitems: ");
        r.append(decimal_string(self.linked_items).as_str());
        r.append("\nlinks: ");
        r.append(decimal_string(self.links_created).as_str());
        r.append("\n");
        r
    }

    pub fn linked_items(&self) -> (r: u32)
        ensures
            r == self.items(),
    {
        self.linked_items
    }

    pub fn links_created(&self) -> (r: u32)
        ensures
            r == self.links(),
    {
        self.links_created
    }
}

} // verus!
