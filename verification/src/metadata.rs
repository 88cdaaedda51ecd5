//! The compiler context: a keyed store of shared state, scoped to one
//! program compilation. At most one live instance exists per kind; absence
//! of a required kind is a fatal compilation error.

use vstd::prelude::*;

use crate::bignum::big;

verus! {

/// The kinds of shared state the builders exchange.
#[derive(Clone, Copy, Debug, PartialEq, Eq, Structural)]
pub enum MetadataKind {
    PrimeModulo,
    GasCost,
    SyscallHandler,
}

/// One entry of the store.
#[derive(Debug)]
pub enum Metadata {
    /// The finite field's prime modulus.
    PrimeModulo { prime: num_bigint::BigUint },
    /// The flat gas cost charged per statement.
    GasCost { cost: u64 },
    /// The address of the syscall-handler linkage table.
    SyscallHandler { addr: u64 },
}

/// The kind an entry belongs to.
pub open spec fn kind_of(m: Metadata) -> MetadataKind {
    match m {
        Metadata::PrimeModulo { .. } => MetadataKind::PrimeModulo,
        Metadata::GasCost { .. } => MetadataKind::GasCost,
        Metadata::SyscallHandler { .. } => MetadataKind::SyscallHandler,
    }
}

pub fn metadata_kind(m: &Metadata) -> (r: MetadataKind)
    ensures
        r == kind_of(*m),
{
    match m {
        Metadata::PrimeModulo { .. } => MetadataKind::PrimeModulo,
        Metadata::GasCost { .. } => MetadataKind::GasCost,
        Metadata::SyscallHandler { .. } => MetadataKind::SyscallHandler,
    }
}

/// Each entry is visible in the view under its kind.
proof fn lemma_view_index(s: MetadataStorage, i: int)
    requires
        s.kinds_unique(),
        0 <= i < s.entries@.len(),
    ensures
        s@.dom().contains(kind_of(s.entries@[i])),
        s@[kind_of(s.entries@[i])] == s.entries@[i],
{
    let k = kind_of(s.entries@[i]);
    assert(exists|j: int| 0 <= j < s.entries@.len() && kind_of(#[trigger] s.entries@[j]) == k)
        by {
        assert(kind_of(s.entries@[i]) == k);
    }
    let w = choose|j: int|
        0 <= j < s.entries@.len() && kind_of(#[trigger] s.entries@[j]) == k;
    assert(w == i);
}

/// A kind no entry has is absent from the view.
proof fn lemma_view_absent(s: MetadataStorage, k: MetadataKind)
    requires
        forall|j: int| 0 <= j < s.entries@.len() ==> kind_of(#[trigger] s.entries@[j]) != k,
    ensures
        !s@.dom().contains(k),
{
}

/// The keyed store itself.
#[derive(Debug)]
pub struct MetadataStorage {
    pub entries: Vec<Metadata>,
}

impl MetadataStorage {
    /// The entries, by kind.
    pub open spec fn view(&self) -> Map<MetadataKind, Metadata> {
        Map::new(
            |k: MetadataKind| exists|i: int| 0 <= i < self.entries@.len() && kind_of(self.entries@[i]) == k,
            |k: MetadataKind| self.entries@[choose|i: int|
                0 <= i < self.entries@.len() && kind_of(#[trigger] self.entries@[i]) == k],
        )
    }

    /// At most one entry per kind.
    pub open spec fn kinds_unique(&self) -> bool {
        forall|i: int, j: int|
            0 <= i < j < self.entries@.len() ==> kind_of(self.entries@[i]) != kind_of(
                self.entries@[j],
            )
    }

    pub fn new() -> (r: MetadataStorage)
        ensures
            r@ == Map::<MetadataKind, Metadata>::empty(),
            r.kinds_unique(),
    {
        let r = MetadataStorage { entries: Vec::new() };
        proof {
            assert(r@ =~= Map::<MetadataKind, Metadata>::empty());
        }
        r
    }

    /// Look up the entry of a kind.
    pub fn get(&self, kind: MetadataKind) -> (r: Option<&Metadata>)
        requires
            self.kinds_unique(),
        ensures
            match r {
                Some(m) => self@.dom().contains(kind) && *m == self@[kind],
                None => !self@.dom().contains(kind),
            },
    {
        let n = self.entries.len();
        let mut i: usize = 0;
        while i < n
            invariant
                n == self.entries@.len(),
                i <= n,
                forall|j: int| 0 <= j < i ==> kind_of(self.entries@[j]) != kind,
                self.kinds_unique(),
            decreases n - i,
        {
            if metadata_kind(&self.entries[i]) == kind {
                proof {
                    assert(self@.dom().contains(kind));
                    let w = choose|j: int|
                        0 <= j < self.entries@.len() && kind_of(
                            #[trigger] self.entries@[j],
                        ) == kind;
                    assert(w == i);
                }
                return Some(&self.entries[i]);
            }
            i = i + 1;
        }
        proof {
            assert(!self@.dom().contains(kind));
        }
        None
    }

    /// Insert an entry. Returns `false` when an instance of the same kind
    /// already existed; the old value is replaced either way.
    pub fn insert(&mut self, m: Metadata) -> (r: bool)
        requires
            old(self).kinds_unique(),
        ensures
            final(self).kinds_unique(),
            final(self)@ == old(self)@.insert(kind_of(m), m),
            r == !old(self)@.dom().contains(kind_of(m)),
    {
        let kind = metadata_kind(&m);
        let n = self.entries.len();
        let mut i: usize = 0;
        while i < n
            invariant
                n == self.entries@.len(),
                i <= n,
                forall|j: int| 0 <= j < i ==> kind_of(self.entries@[j]) != kind,
                self.kinds_unique(),
                kind == kind_of(m),
                self.entries@ == old(self).entries@,
            decreases n - i,
        {
            if metadata_kind(&self.entries[i]) == kind {
                self.entries.set(i, m);
                proof {
                    lemma_view_index(*old(self), i as int);
                    assert forall|k2: MetadataKind|
                        #![trigger final(self)@.dom().contains(k2)]
                        #![trigger old(self)@.insert(kind, m).dom().contains(k2)]
                        true implies {
                        &&& final(self)@.dom().contains(k2) == old(self)@.insert(
                            kind,
                            m,
                        ).dom().contains(k2)
                        &&& (final(self)@.dom().contains(k2) ==> final(self)@[k2] == old(
                            self,
                        )@.insert(kind, m)[k2])
                    } by {
                        if k2 == kind {
                            lemma_view_index(*self, i as int);
                        } else {
                            if exists|j: int|
                                0 <= j < old(self).entries@.len() && kind_of(
                                    #[trigger] old(self).entries@[j],
                                ) == k2 {
                                let j = choose|j: int|
                                    0 <= j < old(self).entries@.len() && kind_of(
                                        #[trigger] old(self).entries@[j],
                                    ) == k2;
                                lemma_view_index(*old(self), j);
                                lemma_view_index(*self, j);
                            } else {
                                lemma_view_absent(*old(self), k2);
                                lemma_view_absent(*self, k2);
                            }
                        }
                    }
                    assert(final(self)@ =~= old(self)@.insert(kind, m));
                }
                return false;
            }
            i = i + 1;
        }
        self.entries.push(m);
        proof {
            lemma_view_absent(*old(self), kind);
            assert forall|k2: MetadataKind|
                #![trigger final(self)@.dom().contains(k2)]
                #![trigger old(self)@.insert(kind, m).dom().contains(k2)]
                true implies {
                &&& final(self)@.dom().contains(k2) == old(self)@.insert(
                    kind,
                    m,
                ).dom().contains(k2)
                &&& (final(self)@.dom().contains(k2) ==> final(self)@[k2] == old(self)@.insert(
                    kind,
                    m,
                )[k2])
            } by {
                let n2 = old(self).entries@.len() as int;
                if k2 == kind {
                    lemma_view_index(*self, n2);
                } else {
                    if exists|j: int|
                        0 <= j < old(self).entries@.len() && kind_of(
                            #[trigger] old(self).entries@[j],
                        ) == k2 {
                        let j = choose|j: int|
                            0 <= j < old(self).entries@.len() && kind_of(
                                #[trigger] old(self).entries@[j],
                            ) == k2;
                        lemma_view_index(*old(self), j);
                        lemma_view_index(*self, j);
                    } else {
                        lemma_view_absent(*old(self), k2);
                        lemma_view_absent(*self, k2);
                    }
                }
            }
            assert(final(self)@ =~= old(self)@.insert(kind, m));
        }
        true
    }
}

} // verus!
