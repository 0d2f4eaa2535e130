//! Selecting store entries by the collection (directory) they are in.

use vstd::prelude::*;

verus! {

/// The store id `id`, given as its path components, lies in the collection
/// `colls` (a directory path from the store root): component by component,
/// as far as both go, each component of the id is a plain name equal to the
/// collection's component. `None` stands for a component that is not a plain
/// UTF-8 name (a root, `.`, `..`, or a name that is not valid UTF-8).
pub open spec fn spec_is_in_collection(id: Seq<Option<Seq<char>>>, colls: Seq<Seq<char>>) -> bool {
    forall|i: int| 0 <= i < id.len() && 0 <= i < colls.len() ==> #[trigger] id[i] == Some(colls[i])
}

pub open spec fn components_view(id: Seq<Option<String>>) -> Seq<Option<Seq<char>>> {
    id.map_values(|c: Option<String>| match c {
        Some(s) => Some(s@),
        None => None,
    })
}

pub open spec fn names_view(colls: Seq<String>) -> Seq<Seq<char>> {
    colls.map_values(|s: String| s@)
}

/// Keeps the store ids that lie in the given collection; keeps every id when
/// no collection is given.
pub struct IsInCollectionsFilter {
    pub collections: Option<Vec<String>>,
}

impl IsInCollectionsFilter {
    pub fn new(collections: Option<Vec<String>>) -> (res: Self)
        ensures
            res.collections == collections,
    {
        IsInCollectionsFilter { collections }
    }

    pub open spec fn spec_filter(&self, id: Seq<Option<String>>) -> bool {
        match self.collections {
            Some(colls) => spec_is_in_collection(components_view(id), names_view(colls@)),
            None => true,
        }
    }

    /// Whether the store id with the path components `id` passes the filter.
    pub fn filter(&self, id: &Vec<Option<String>>) -> (res: bool)
        ensures
            res == self.spec_filter(id@),
    {
        match &self.collections {
            None => true,
            Some(colls) => {
                let ghost idv = components_view(id@);
                let ghost cv = names_view(colls@);
                let mut i: usize = 0;
                while i < id.len() && i < colls.len()
                    invariant
                        i <= id.len(),
                        idv == components_view(id@),
                        cv == names_view(colls@),
                        self.spec_filter(id@) == spec_is_in_collection(idv, cv),
                        forall|k: int| 0 <= k < i ==> #[trigger] idv[k] == Some(cv[k]),
                    decreases id.len() - i,
                {
                    let same = match &id[i] {
                        Some(name) => *name == colls[i],
                        None => false,
                    };
                    if !same {
                        assert(idv[i as int] != Some(cv[i as int]));
                        return false;
                    }
                    i = i + 1;
                }
                true
            },
        }
    }
}

} // verus!
