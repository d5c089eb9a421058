//! Which pot a batch deposit from each kind of account goes to.

use crate::accounts::Type;
use vstd::prelude::*;

verus! {

/// Deposits from accounts of type `source` go to the pot named `pot_name`.
pub struct Destination {
    pub source: Type,
    pub pot_name: String,
}

/// The configured destinations, in the order they were written.
pub struct Config {
    destinations: Vec<Destination>,
}

impl View for Config {
    type V = Seq<Destination>;

    closed spec fn view(&self) -> Seq<Destination> {
        self.destinations@
    }
}

/// The position of the first destination for `source`, if there is one.
pub open spec fn first_destination(ds: Seq<Destination>, source: Type) -> Option<int>
    decreases ds.len(),
{
    if ds.len() == 0 {
        None
    } else {
        match first_destination(ds.drop_last(), source) {
            Some(i) => Some(i),
            None => if ds.last().source == source {
                Some(ds.len() - 1)
            } else {
                None
            },
        }
    }
}

/// `first_destination` finds the first destination for the source, and finds
/// none exactly when no destination is for the source.
pub proof fn lemma_first_destination(ds: Seq<Destination>, source: Type)
    ensures
        first_destination(ds, source) matches Some(i) ==> {
            &&& 0 <= i < ds.len()
            &&& ds[i].source == source
            &&& forall|j: int| 0 <= j < i ==> ds[j].source != source
        },
        first_destination(ds, source) is None ==> forall|j: int|
            0 <= j < ds.len() ==> ds[j].source != source,
    decreases ds.len(),
{
    if ds.len() > 0 {
        let init = ds.drop_last();
        lemma_first_destination(init, source);
        match first_destination(init, source) {
            Some(i) => {
                assert forall|j: int| 0 <= j < i implies ds[j].source != source by {
                    assert(ds[j] == init[j]);
                }
                assert(ds[i] == init[i]);
            },
            None => {
                assert forall|j: int| 0 <= j < ds.len() - 1 implies ds[j].source != source by {
                    assert(ds[j] == init[j]);
                }
            },
        }
    }
}

impl Config {
    /// A configuration with the given destinations.
    pub fn new(destinations: Vec<Destination>) -> (res: Config)
        ensures
            res@ == destinations@,
    {
        Config { destinations }
    }

    /// The first configured destination for deposits from accounts of type `source`.
    pub fn get_pot_for_deposit(&self, source: &Type) -> (res: Option<&Destination>)
        ensures
            match first_destination(self@, *source) {
                Some(i) => res matches Some(d) && *d == self@[i],
                None => res is None,
            },
            res matches Some(d) ==> d.source == *source,
    {
        let n = self.destinations.len();
        let mut i: usize = 0;
        while i < n
            invariant
                n == self@.len(),
                i <= n,
                first_destination(self@.take(i as int), *source) is None,
            decreases n - i,
        {
            assert(self@.take(i + 1).drop_last() == self@.take(i as int));
            if self.destinations[i].source == *source {
                proof {
                    lemma_first_destination(self@, *source);
                    lemma_first_destination(self@.take(i as int), *source);
                    assert forall|j: int| 0 <= j < i implies self@[j].source != *source by {
                        assert(self@.take(i as int)[j] == self@[j]);
                    }
                }
                return Some(&self.destinations[i]);
            }
            i = i + 1;
        }
        assert(self@.take(n as int) == self@);
        None
    }
}

} // verus!
