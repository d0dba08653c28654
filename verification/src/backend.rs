use crate::error::StorageError;
use vstd::prelude::*;
use vstd::string::StrSliceExecFns;

verus! {

/// The tag of a supported storage engine.
#[derive(Clone, Copy, Debug, PartialEq, Eq, Structural)]
pub enum BackendKind {
    /// A plain file that holds the records as one image.
    Baseline,
    /// The fjall log-structured merge store.
    Fjall,
    /// The sled tree store.
    Sled,
    /// The libsql relational engine.
    Libsql,
    /// The sqlite relational engine.
    Sqlite,
}

/// What an adapter offers beyond the uniform operations.
#[derive(Clone, Copy, Debug, PartialEq, Eq, Structural)]
pub struct Capabilities {
    /// Several read-only handles may hold one location at a time.
    pub shared_readers: bool,
    /// The engine iterates its records in key order by itself.
    pub ordered_iteration: bool,
    /// The engine answers SQL queries.
    pub sql: bool,
}

/// Whether two texts hold the same characters.
pub fn text_eq(a: &str, b: &str) -> (r: bool)
    ensures
        r == (a@ == b@),
{
    let n: usize = a.unicode_len();
    if n != b.unicode_len() {
        return false;
    }
    let mut i: usize = 0;
    while i < n
        invariant
            n == a@.len(),
            n == b@.len(),
            i <= n,
            forall|j: int| 0 <= j < i ==> a@[j] == b@[j],
        decreases n - i,
    {
        if a.get_char(i) != b.get_char(i) {
            return false;
        }
        i += 1;
    }
    assert(a@ =~= b@);
    true
}

impl BackendKind {
    /// The identifier by which a configuration selects the backend.
    pub open spec fn name(self) -> Seq<char> {
        match self {
            BackendKind::Baseline => "baseline"@,
            BackendKind::Fjall => "fjall"@,
            BackendKind::Sled => "sled"@,
            BackendKind::Libsql => "libsql"@,
            BackendKind::Sqlite => "sqlite"@,
        }
    }

    /// The identifier of the backend as text.
    pub fn identifier(self) -> (r: &'static str)
        ensures
            r@ == self.name(),
    {
        match self {
            BackendKind::Baseline => "baseline",
            BackendKind::Fjall => "fjall",
            BackendKind::Sled => "sled",
            BackendKind::Libsql => "libsql",
            BackendKind::Sqlite => "sqlite",
        }
    }

    /// The backend that `name` selects: the one whose identifier it is.
    pub fn from_name(name: &str) -> (r: Option<BackendKind>)
        ensures
            match r {
                Some(kind) => kind.name() == name@,
                None => forall|kind: BackendKind| kind.name() != name@,
            },
    {
        if text_eq(name, "baseline") {
            Some(BackendKind::Baseline)
        } else if text_eq(name, "fjall") {
            Some(BackendKind::Fjall)
        } else if text_eq(name, "sled") {
            Some(BackendKind::Sled)
        } else if text_eq(name, "libsql") {
            Some(BackendKind::Libsql)
        } else if text_eq(name, "sqlite") {
            Some(BackendKind::Sqlite)
        } else {
            None
        }
    }

    /// What the backend's adapter advertises.
    pub open spec fn spec_capabilities(self) -> Capabilities {
        match self {
            BackendKind::Baseline => Capabilities {
                shared_readers: true,
                ordered_iteration: false,
                sql: false,
            },
            BackendKind::Fjall => Capabilities {
                shared_readers: false,
                ordered_iteration: true,
                sql: false,
            },
            BackendKind::Sled => Capabilities {
                shared_readers: false,
                ordered_iteration: true,
                sql: false,
            },
            BackendKind::Libsql => Capabilities {
                shared_readers: true,
                ordered_iteration: true,
                sql: true,
            },
            BackendKind::Sqlite => Capabilities {
                shared_readers: true,
                ordered_iteration: true,
                sql: true,
            },
        }
    }

    /// What the backend's adapter advertises.
    #[verifier::when_used_as_spec(spec_capabilities)]
    pub fn capabilities(self) -> (r: Capabilities)
        ensures
            r == self.spec_capabilities(),
    {
        match self {
            BackendKind::Baseline => Capabilities {
                shared_readers: true,
                ordered_iteration: false,
                sql: false,
            },
            BackendKind::Fjall | BackendKind::Sled => Capabilities {
                shared_readers: false,
                ordered_iteration: true,
                sql: false,
            },
            BackendKind::Libsql | BackendKind::Sqlite => Capabilities {
                shared_readers: true,
                ordered_iteration: true,
                sql: true,
            },
        }
    }
}

/// The names of two different backends differ.
pub proof fn lemma_names_distinct(a: BackendKind, b: BackendKind)
    requires
        a != b,
    ensures
        a.name() != b.name(),
{
    reveal_strlit("baseline");
    reveal_strlit("fjall");
    reveal_strlit("sled");
    reveal_strlit("libsql");
    reveal_strlit("sqlite");
    if a.name().len() == b.name().len() {
        assert(a.name()[1] != b.name()[1]);
    }
}

/// The set of backends for which an adapter is registered.
#[derive(Clone, Copy, Debug)]
pub struct Registry {
    baseline: bool,
    fjall: bool,
    sled: bool,
    libsql: bool,
    sqlite: bool,
}

impl View for Registry {
    type V = Set<BackendKind>;

    closed spec fn view(&self) -> Set<BackendKind> {
        Set::new(
            |kind: BackendKind|
                match kind {
                    BackendKind::Baseline => self.baseline,
                    BackendKind::Fjall => self.fjall,
                    BackendKind::Sled => self.sled,
                    BackendKind::Libsql => self.libsql,
                    BackendKind::Sqlite => self.sqlite,
                },
        )
    }
}

impl Registry {
    /// A registry without any adapter.
    pub fn new() -> (r: Registry)
        ensures
            r@ == Set::<BackendKind>::empty(),
    {
        let r = Registry { baseline: false, fjall: false, sled: false, libsql: false, sqlite: false };
        assert(r@ =~= Set::<BackendKind>::empty());
        r
    }

    /// Registers the adapter of `kind`. Registering it again changes nothing.
    pub fn register(&mut self, kind: BackendKind)
        ensures
            final(self)@ == old(self)@.insert(kind),
    {
        match kind {
            BackendKind::Baseline => { self.baseline = true; },
            BackendKind::Fjall => { self.fjall = true; },
            BackendKind::Sled => { self.sled = true; },
            BackendKind::Libsql => { self.libsql = true; },
            BackendKind::Sqlite => { self.sqlite = true; },
        }
        assert(self@ =~= old(self)@.insert(kind));
    }

    /// Whether an adapter is registered for `kind`.
    pub fn contains(&self, kind: BackendKind) -> (r: bool)
        ensures
            r == self@.contains(kind),
    {
        match kind {
            BackendKind::Baseline => self.baseline,
            BackendKind::Fjall => self.fjall,
            BackendKind::Sled => self.sled,
            BackendKind::Libsql => self.libsql,
            BackendKind::Sqlite => self.sqlite,
        }
    }

    /// Whether `name` is the identifier of a registered backend.
    pub open spec fn offers(self, name: Seq<char>) -> bool {
        exists|kind: BackendKind| self@.contains(kind) && kind.name() == name
    }

    /// The registered backend that `name` selects. An unknown name and the
    /// name of a backend without adapter both give `BackendUnavailable`.
    pub fn resolve(&self, name: &str) -> (r: Result<BackendKind, StorageError>)
        ensures
            match r {
                Ok(kind) => self@.contains(kind) && kind.name() == name@,
                Err(e) => e == StorageError::BackendUnavailable && !self.offers(name@),
            },
    {
        match BackendKind::from_name(name) {
            Some(kind) => {
                if self.contains(kind) {
                    Ok(kind)
                } else {
                    proof {
                        assert forall|other: BackendKind|
                            self@.contains(other) implies other.name() != name@ by {
                            lemma_names_distinct(other, kind);
                        }
                    }
                    Err(StorageError::BackendUnavailable)
                }
            },
            None => Err(StorageError::BackendUnavailable),
        }
    }
}

} // verus!
