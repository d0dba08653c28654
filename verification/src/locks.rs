use crate::backend::{text_eq, BackendKind, Registry};
use crate::config::OpenConfig;
use crate::durability::DurabilityLevel;
use crate::error::StorageError;
use crate::handle::{open_refusal, EngineHandle, HandleState, Holders, LocationState};
use vstd::prelude::*;

verus! {

/// A handle that is open on a location.
#[derive(Debug, PartialEq, Eq)]
pub struct Holding {
    /// The location that is held.
    pub location: String,
    /// The handle that holds it refuses mutations.
    pub read_only: bool,
}

/// Whether the handle at `i` holds `location`.
pub open spec fn holds(open: Seq<Holding>, i: int, location: Seq<char>) -> bool {
    0 <= i < open.len() && open[i].location@ == location
}

/// Who holds `location` among the handles that are open: a writer if one
/// of them may write, else readers if there is any, else nobody.
pub open spec fn holders_among(open: Seq<Holding>, location: Seq<char>) -> Holders {
    if exists|i: int| #[trigger] holds(open, i, location) && !open[i].read_only {
        Holders::Writer
    } else if exists|i: int| #[trigger] holds(open, i, location) {
        Holders::Readers
    } else {
        Holders::Nobody
    }
}

/// Who holds `location` among the handles that are open.
pub fn holders_of(open: &Vec<Holding>, location: &str) -> (r: Holders)
    ensures
        r == holders_among(open@, location@),
{
    let mut found = Holders::Nobody;
    let mut i: usize = 0;
    while i < open.len()
        invariant
            i <= open@.len(),
            found != Holders::Writer,
            forall|j: int| 0 <= j < i && #[trigger] holds(open@, j, location@) ==> open@[j].read_only,
            found == Holders::Readers <==> exists|j: int| 0 <= j < i && #[trigger] holds(open@, j, location@),
        decreases open@.len() - i,
    {
        if text_eq(open[i].location.as_str(), location) {
            assert(holds(open@, i as int, location@));
            if !open[i].read_only {
                return Holders::Writer;
            }
            found = Holders::Readers;
        }
        i += 1;
    }
    found
}

/// Whether every location that a writer holds is held by that writer
/// alone.
pub open spec fn exclusive(open: Seq<Holding>) -> bool {
    forall|i: int, j: int|
        #![trigger open[i], open[j]]
        0 <= i < open.len() && 0 <= j < open.len() && i != j && open[i].location@ == open[j].location@
            ==> open[i].read_only && open[j].read_only
}

/// A handle that is admitted beside the handles that are open leaves
/// every writer alone on its location: a location has one writer at most,
/// and no reader beside a writer.
pub proof fn law_writers_stay_alone(
    open: Seq<Holding>,
    registered: Set<BackendKind>,
    kind: BackendKind,
    config: OpenConfig,
    exists: bool,
    admitted: Holding,
)
    requires
        exclusive(open),
        admitted.read_only == config.read_only,
        open_refusal(
            registered,
            kind,
            config,
            LocationState { exists, holders: holders_among(open, admitted.location@) },
        ) is None,
    ensures
        exclusive(open.push(admitted)),
{
    let location = admitted.location@;
    let longer = open.push(admitted);
    assert forall|i: int, j: int|
        #![trigger longer[i], longer[j]]
        0 <= i < longer.len() && 0 <= j < longer.len() && i != j && longer[i].location@ == longer[j].location@
        implies longer[i].read_only && longer[j].read_only by {
        if i < open.len() && j < open.len() {
            assert(open[i].location@ == open[j].location@);
        } else {
            let other = if i < open.len() { i } else { j };
            assert(holds(open, other, location));
        }
    }
}

/// The handles that are open in this process, each with the location it
/// holds. Every location that a writer holds is held by that writer alone.
#[derive(Debug)]
pub struct OpenLocations {
    held: Vec<Holding>,
}

impl View for OpenLocations {
    type V = Seq<Holding>;

    closed spec fn view(&self) -> Seq<Holding> {
        self.held@
    }
}

impl OpenLocations {
    #[verifier::type_invariant]
    spec fn writers_alone(self) -> bool {
        exclusive(self.held@)
    }

    /// No handle is open.
    pub fn new() -> (r: OpenLocations)
        ensures
            r@.len() == 0,
    {
        OpenLocations { held: Vec::new() }
    }

    /// How many handles are open.
    pub fn len(&self) -> (r: usize)
        ensures
            r == self@.len(),
            exclusive(self@),
    {
        proof {
            use_type_invariant(self);
        }
        self.held.len()
    }

    /// Who holds `location`.
    pub fn holders(&self, location: &str) -> (r: Holders)
        ensures
            r == holders_among(self@, location@),
    {
        holders_of(&self.held, location)
    }

    /// Hands out the holdings and leaves none.
    fn take(&mut self) -> (r: Vec<Holding>)
        ensures
            r@ == old(self)@,
            exclusive(r@),
            final(self)@.len() == 0,
    {
        proof {
            use_type_invariant(&*self);
        }
        let mut taken = OpenLocations { held: Vec::new() };
        core::mem::swap(self, &mut taken);
        let OpenLocations { held } = taken;
        held
    }

    /// Opens `location` on the backend `kind` beside the handles that are
    /// open, and notes the new handle among them. Who holds the location
    /// is read from the handles that are open. Where opening fails, they
    /// stay as they are.
    pub fn open(
        &mut self,
        registry: &Registry,
        kind: BackendKind,
        location: &str,
        config: OpenConfig,
        exists: bool,
    ) -> (r: Result<EngineHandle, StorageError>)
        ensures
            exclusive(final(self)@),
            match r {
                Ok(handle) => {
                    &&& open_refusal(
                        registry@,
                        kind,
                        config,
                        LocationState { exists, holders: holders_among(old(self)@, location@) },
                    ) is None
                    &&& handle@ == (HandleState {
                        kind,
                        location: location@,
                        read_only: config.read_only,
                        open: true,
                        reached: DurabilityLevel::Synced,
                    })
                    &&& final(self)@.len() == old(self)@.len() + 1
                    &&& final(self)@.drop_last() == old(self)@
                    &&& final(self)@.last().location@ == location@
                    &&& final(self)@.last().read_only == config.read_only
                },
                Err(e) => {
                    &&& open_refusal(
                        registry@,
                        kind,
                        config,
                        LocationState { exists, holders: holders_among(old(self)@, location@) },
                    ) == Some(e)
                    &&& final(self)@ == old(self)@
                },
            },
    {
        let state = LocationState { exists, holders: self.holders(location) };
        match EngineHandle::open(registry, kind, location.to_owned(), config, state) {
            Ok(handle) => {
                let admitted = Holding { location: location.to_owned(), read_only: config.read_only };
                let mut held = self.take();
                proof {
                    law_writers_stay_alone(held@, registry@, kind, config, exists, admitted);
                }
                held.push(admitted);
                assert(held@.drop_last() =~= old(self)@);
                *self = OpenLocations { held };
                Ok(handle)
            },
            Err(e) => {
                proof {
                    use_type_invariant(&*self);
                }
                Err(e)
            },
        }
    }

    /// Strikes one handle that holds `location` in the given way, the
    /// first there is, and says whether there was one.
    pub fn strike(&mut self, location: &str, read_only: bool) -> (r: bool)
        ensures
            exclusive(final(self)@),
            r == exists|i: int| #[trigger] holds(old(self)@, i, location@) && old(self)@[i].read_only == read_only,
            !r ==> final(self)@ == old(self)@,
            r ==> exists|i: int|
                {
                    &&& #[trigger] holds(old(self)@, i, location@)
                    &&& old(self)@[i].read_only == read_only
                    &&& final(self)@ == old(self)@.remove(i)
                    &&& forall|j: int|
                        0 <= j < i && holds(old(self)@, j, location@) ==> old(self)@[j].read_only != read_only
                },
    {
        let mut held = self.take();
        let ghost before = held@;
        let mut i: usize = 0;
        let mut found = false;
        while i < held.len() && !found
            invariant
                i <= held@.len(),
                !found ==> held@ == before,
                exclusive(before),
                exclusive(held@),
                !found ==> forall|j: int|
                    0 <= j < i && #[trigger] holds(before, j, location@) ==> before[j].read_only != read_only,
                found ==> exists|k: int|
                    {
                        &&& #[trigger] holds(before, k, location@)
                        &&& before[k].read_only == read_only
                        &&& held@ == before.remove(k)
                        &&& forall|j: int| 0 <= j < k && holds(before, j, location@) ==> before[j].read_only != read_only
                    },
            decreases held@.len() - i + (if found { 0int } else { 1int }),
        {
            if held[i].read_only == read_only && text_eq(held[i].location.as_str(), location) {
                assert(holds(before, i as int, location@));
                held.remove(i);
                proof {
                    let after = held@;
                    assert forall|a: int, b: int|
                        #![trigger after[a], after[b]]
                        0 <= a < after.len() && 0 <= b < after.len() && a != b && after[a].location@
                            == after[b].location@ implies after[a].read_only && after[b].read_only by {
                        let ba = if a < i { a } else { a + 1 };
                        let bb = if b < i { b } else { b + 1 };
                        assert(after[a] == before[ba] && after[b] == before[bb]);
                        assert(before[ba].location@ == before[bb].location@);
                    }
                }
                found = true;
            } else {
                i += 1;
            }
        }
        proof {
            if !found {
                assert forall|j: int| #[trigger] holds(before, j, location@) implies before[j].read_only
                    != read_only by {}
            }
        }
        *self = OpenLocations { held };
        found
    }
}

} // verus!
