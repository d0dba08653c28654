use vstd::prelude::*;

verus! {

/// Byte order on keys: `a` comes before `b` when `a` is a proper prefix of
/// `b`, or when at the first position where they differ `a` holds the
/// smaller byte.
pub open spec fn key_lt(a: Seq<u8>, b: Seq<u8>) -> bool
    decreases a.len(),
{
    if b.len() == 0 {
        false
    } else if a.len() == 0 {
        true
    } else if a[0] != b[0] {
        a[0] < b[0]
    } else {
        key_lt(a.drop_first(), b.drop_first())
    }
}

/// `a` comes before `b` or equals it.
pub open spec fn key_le(a: Seq<u8>, b: Seq<u8>) -> bool {
    a == b || key_lt(a, b)
}

/// How two keys stand to each other in byte order.
#[derive(Clone, Copy, Debug, PartialEq, Eq, Structural)]
pub enum KeyOrder {
    Before,
    Same,
    After,
}

/// No key comes before itself.
pub proof fn lemma_key_lt_irreflexive(a: Seq<u8>)
    ensures
        !key_lt(a, a),
    decreases a.len(),
{
    if a.len() > 0 {
        lemma_key_lt_irreflexive(a.drop_first());
    }
}

/// Of two keys at most one comes before the other.
pub proof fn lemma_key_lt_asymmetric(a: Seq<u8>, b: Seq<u8>)
    requires
        key_lt(a, b),
    ensures
        !key_lt(b, a),
    decreases a.len(),
{
    if a.len() > 0 && b.len() > 0 && a[0] == b[0] {
        lemma_key_lt_asymmetric(a.drop_first(), b.drop_first());
    }
}

/// The order is transitive.
pub proof fn lemma_key_lt_transitive(a: Seq<u8>, b: Seq<u8>, c: Seq<u8>)
    requires
        key_lt(a, b),
        key_lt(b, c),
    ensures
        key_lt(a, c),
    decreases a.len(),
{
    if a.len() > 0 && b.len() > 0 && c.len() > 0 && a[0] == b[0] && b[0] == c[0] {
        lemma_key_lt_transitive(a.drop_first(), b.drop_first(), c.drop_first());
    }
}

/// Two different keys are ordered one way or the other.
pub proof fn lemma_key_lt_total(a: Seq<u8>, b: Seq<u8>)
    ensures
        a == b || key_lt(a, b) || key_lt(b, a),
    decreases a.len(),
{
    if a.len() == 0 || b.len() == 0 {
        if a.len() == 0 && b.len() == 0 {
            assert(a =~= b);
        }
    } else if a[0] == b[0] {
        lemma_key_lt_total(a.drop_first(), b.drop_first());
        if a.drop_first() == b.drop_first() {
            assert(a =~= seq![a[0]] + a.drop_first());
            assert(b =~= seq![b[0]] + b.drop_first());
        }
    }
}

/// The order of two keys depends only on what follows their common prefix.
proof fn lemma_key_lt_skip(a: Seq<u8>, b: Seq<u8>, n: int)
    requires
        0 <= n <= a.len(),
        n <= b.len(),
        forall|j: int| 0 <= j < n ==> a[j] == b[j],
    ensures
        key_lt(a, b) == key_lt(a.skip(n), b.skip(n)),
    decreases n,
{
    if n == 0 {
        assert(a.skip(0) =~= a);
        assert(b.skip(0) =~= b);
    } else {
        let a1 = a.drop_first();
        let b1 = b.drop_first();
        assert forall|j: int| 0 <= j < n - 1 implies a1[j] == b1[j] by {
            assert(a1[j] == a[j + 1]);
            assert(b1[j] == b[j + 1]);
        }
        lemma_key_lt_skip(a1, b1, n - 1);
        assert(a1.skip(n - 1) =~= a.skip(n));
        assert(b1.skip(n - 1) =~= b.skip(n));
        assert(a[0] == b[0]);
    }
}

/// Compares two keys in byte order.
pub fn compare_keys(a: &[u8], b: &[u8]) -> (r: KeyOrder)
    ensures
        r == KeyOrder::Before <==> key_lt(a@, b@),
        r == KeyOrder::Same <==> a@ == b@,
        r == KeyOrder::After <==> key_lt(b@, a@),
{
    let n: usize = if a.len() < b.len() { a.len() } else { b.len() };
    let mut i: usize = 0;
    while i < n
        invariant
            n <= a@.len(),
            n <= b@.len(),
            n == a@.len() || n == b@.len(),
            i <= n,
            forall|j: int| 0 <= j < i ==> a@[j] == b@[j],
        decreases n - i,
    {
        if a[i] != b[i] {
            proof {
                lemma_key_lt_skip(a@, b@, i as int);
                lemma_key_lt_skip(b@, a@, i as int);
                assert(a@.skip(i as int)[0] == a@[i as int]);
                assert(b@.skip(i as int)[0] == b@[i as int]);
                if key_lt(a@, b@) {
                    lemma_key_lt_asymmetric(a@, b@);
                }
            }
            if a[i] < b[i] {
                return KeyOrder::Before;
            } else {
                return KeyOrder::After;
            }
        }
        i += 1;
    }
    proof {
        lemma_key_lt_skip(a@, b@, n as int);
        lemma_key_lt_skip(b@, a@, n as int);
        lemma_key_lt_irreflexive(a@);
        if a@.len() == b@.len() {
            assert(a@ =~= b@);
        } else if key_lt(a@, b@) {
            lemma_key_lt_asymmetric(a@, b@);
        }
    }
    if a.len() < b.len() {
        KeyOrder::Before
    } else if a.len() == b.len() {
        KeyOrder::Same
    } else {
        KeyOrder::After
    }
}

/// The bounds of a range of keys: the first key that belongs to it and the
/// first key after it. A bound that is absent leaves that side open.
pub type Bounds = (Option<Seq<u8>>, Option<Seq<u8>>);

/// Whether `key` lies within `bounds`.
pub open spec fn in_bounds(bounds: Bounds, key: Seq<u8>) -> bool {
    &&& match bounds.0 {
        Some(start) => key_le(start, key),
        None => true,
    }
    &&& match bounds.1 {
        Some(end) => key_lt(key, end),
        None => true,
    }
}

/// Whether the bounds are such that no key lies within them: both are
/// there and the start does not come before the end.
pub open spec fn void(bounds: Bounds) -> bool {
    match bounds {
        (Some(start), Some(end)) => !key_lt(start, end),
        _ => false,
    }
}

/// Within void bounds lies no key.
pub proof fn lemma_void_holds_nothing(bounds: Bounds, key: Seq<u8>)
    requires
        void(bounds),
    ensures
        !in_bounds(bounds, key),
{
    let start = bounds.0->0;
    let end = bounds.1->0;
    if in_bounds(bounds, key) && start != key {
        lemma_key_lt_transitive(start, key, end);
    }
}

/// A range of keys: from `start`, which belongs to it, up to `end`, which
/// does not. A bound that is absent leaves that side open.
#[derive(Debug, PartialEq, Eq)]
pub struct KeyRange {
    pub start: Option<Vec<u8>>,
    pub end: Option<Vec<u8>>,
}

impl View for KeyRange {
    type V = Bounds;

    open spec fn view(&self) -> Bounds {
        (
            match self.start {
                Some(start) => Some(start@),
                None => None,
            },
            match self.end {
                Some(end) => Some(end@),
                None => None,
            },
        )
    }
}

impl KeyRange {
    /// The range of all keys.
    pub fn all() -> (r: KeyRange)
        ensures
            r@ == (None::<Seq<u8>>, None::<Seq<u8>>),
    {
        KeyRange { start: None, end: None }
    }

    /// The range from `start` up to, not including, `end`.
    pub fn between(start: Vec<u8>, end: Vec<u8>) -> (r: KeyRange)
        ensures
            r@ == (Some(start@), Some(end@)),
    {
        KeyRange { start: Some(start), end: Some(end) }
    }

    /// A second range with the same bounds.
    pub fn duplicate(&self) -> (r: KeyRange)
        ensures
            r@ == self@,
    {
        let start: Option<Vec<u8>> = match &self.start {
            Some(start) => {
                let copy = start.clone();
                assert(copy@ =~= start@);
                Some(copy)
            },
            None => None,
        };
        let end: Option<Vec<u8>> = match &self.end {
            Some(end) => {
                let copy = end.clone();
                assert(copy@ =~= end@);
                Some(copy)
            },
            None => None,
        };
        KeyRange { start, end }
    }

    /// Whether no key can lie in the range.
    pub fn is_void(&self) -> (r: bool)
        ensures
            r == void(self@),
    {
        match (&self.start, &self.end) {
            (Some(start), Some(end)) => !matches!(compare_keys(start.as_slice(), end.as_slice()), KeyOrder::Before),
            _ => false,
        }
    }

    /// Whether `key` lies in the range.
    pub fn contains(&self, key: &[u8]) -> (r: bool)
        ensures
            r == in_bounds(self@, key@),
    {
        let above: bool = match &self.start {
            Some(start) => !matches!(compare_keys(start.as_slice(), key), KeyOrder::After),
            None => true,
        };
        let below: bool = match &self.end {
            Some(end) => matches!(compare_keys(key, end.as_slice()), KeyOrder::Before),
            None => true,
        };
        proof {
            if self.start is Some {
                let start = self.start->0@;
                lemma_key_lt_total(start, key@);
                if key_lt(key@, start) {
                    lemma_key_lt_asymmetric(key@, start);
                    lemma_key_lt_irreflexive(key@);
                }
            }
        }
        above && below
    }
}

} // verus!
