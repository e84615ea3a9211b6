//! The append-only representation store.
//!
//! The store maps a source identifier to an immutable cache entry: the decoded
//! tensor together with its precomputed statistics. Entries are added once and
//! never replaced or evicted — the first write for an identifier wins, a later
//! load of the same identifier is a no-op.

use crate::codec::words_of_bytes;
use crate::error::SimError;
use crate::str_eq;
use crate::tensor::{decode_blob, Shape, Tensor};
use vstd::prelude::*;

verus! {

/// Statistics precomputed once when an entry is built: per (step, cell) the
/// L2 norm over the channel axis, per (step, channel) the mean over the cell
/// axis. Both are kept as the bit patterns of full-precision values; the
/// numeric folds that produce them run with the host around the library.
pub struct Statistics {
    /// Norm bits, flat index step * (n * n) + cell.
    pub norms: Vec<u32>,
    /// Mean bits, flat index step * m + chan.
    pub means: Vec<u32>,
}

impl Statistics {
    /// Well-formed for a shape: one norm per (step, cell), one mean per
    /// (step, channel).
    pub open spec fn wf(self, shape: Shape) -> bool {
        &&& self.norms@.len() == shape.steps * shape.cells()
        &&& self.means@.len() == shape.steps * shape.m
    }
}

/// One decoded, statistics-augmented, immutable representation of a source.
pub struct CacheEntry {
    /// The decoded storage words and their validated shape.
    pub tensor: Tensor,
    /// The statistics derived from the tensor.
    pub stats: Statistics,
}

impl CacheEntry {
    /// Well-formed: the tensor is, and the statistics match its shape.
    pub open spec fn wf(self) -> bool {
        &&& self.tensor.wf()
        &&& self.stats.wf(self.tensor.shape)
    }

    /// The shape shared by the tensor and the statistics.
    pub open spec fn shape(self) -> Shape {
        self.tensor.shape
    }

    /// Builds an entry after checking the statistics lengths against the
    /// tensor's shape; rejects mismatched statistics.
    pub fn checked(tensor: Tensor, norms: Vec<u32>, means: Vec<u32>) -> (r: Option<CacheEntry>)
        requires
            tensor.wf(),
        ensures
            match r {
                Some(e) => {
                    &&& e.tensor == tensor
                    &&& e.stats.norms == norms
                    &&& e.stats.means == means
                    &&& e.wf()
                },
                None => !(norms@.len() == tensor.shape.steps * tensor.shape.cells()
                    && means@.len() == tensor.shape.steps * tensor.shape.m),
            },
    {
        let shape = tensor.shape;
        let cells = shape.cell_count();
        let have_norms = norms.len();
        let have_means = means.len();
        let norms_len = match shape.steps.checked_mul(cells) {
            Some(l) => l,
            None => {
                return None;
            },
        };
        let means_len = match shape.steps.checked_mul(shape.m) {
            Some(l) => l,
            None => {
                return None;
            },
        };
        if have_norms != norms_len || have_means != means_len {
            return None;
        }
        Some(CacheEntry { tensor, stats: Statistics { norms, means } })
    }
}

/// The map held by a key/entry sequence; a later pair for the same key would
/// shadow an earlier one, which the store's key uniqueness rules out.
spec fn map_of(entries: Seq<(String, CacheEntry)>) -> Map<Seq<char>, CacheEntry>
    decreases entries.len(),
{
    if entries.len() == 0 {
        Map::empty()
    } else {
        map_of(entries.drop_last()).insert(entries.last().0@, entries.last().1)
    }
}

/// No two pairs carry the same key.
spec fn unique_keys(entries: Seq<(String, CacheEntry)>) -> bool {
    forall|i: int, j: int|
        0 <= i < j < entries.len() ==> entries[i].0@ != entries[j].0@
}

/// A key is in the map exactly when some pair carries it.
proof fn lemma_map_of_dom(entries: Seq<(String, CacheEntry)>)
    ensures
        forall|k: Seq<char>|
            #[trigger] map_of(entries).dom().contains(k) <==> exists|i: int|
                0 <= i < entries.len() && entries[i].0@ == k,
    decreases entries.len(),
{
    if entries.len() > 0 {
        let prefix = entries.drop_last();
        lemma_map_of_dom(prefix);
        assert forall|k: Seq<char>| #[trigger] map_of(entries).dom().contains(k) implies exists|i: int|
            0 <= i < entries.len() && entries[i].0@ == k by {
            if k == entries.last().0@ {
                assert(entries[entries.len() - 1].0@ == k);
            } else {
                assert(map_of(prefix).dom().contains(k));
                let i = choose|i: int| 0 <= i < prefix.len() && prefix[i].0@ == k;
                assert(entries[i].0@ == k);
            }
        }
        assert forall|k: Seq<char>|
            (exists|i: int| 0 <= i < entries.len() && entries[i].0@ == k)
                implies #[trigger] map_of(entries).dom().contains(k) by {
            let i = choose|i: int| 0 <= i < entries.len() && entries[i].0@ == k;
            if i < entries.len() - 1 {
                assert(prefix[i].0@ == k);
                assert(map_of(prefix).dom().contains(k));
            }
        }
    }
}

/// Under unique keys, the map sends each carried key to its pair's entry.
proof fn lemma_map_of_index(entries: Seq<(String, CacheEntry)>, i: int)
    requires
        unique_keys(entries),
        0 <= i < entries.len(),
    ensures
        map_of(entries).dom().contains(entries[i].0@),
        map_of(entries)[entries[i].0@] == entries[i].1,
    decreases entries.len(),
{
    let prefix = entries.drop_last();
    if i < entries.len() - 1 {
        lemma_map_of_index(prefix, i);
        assert(entries[i].0@ != entries.last().0@);
    }
}

/// One load step of the store's map: the first entry for a key is kept, a
/// later one for the same key is ignored.
pub open spec fn ensure_step(
    m: Map<Seq<char>, CacheEntry>,
    id: Seq<char>,
    e: CacheEntry,
) -> Map<Seq<char>, CacheEntry> {
    if m.dom().contains(id) {
        m
    } else {
        m.insert(id, e)
    }
}

/// Any number of load steps for one key, applied in order.
pub open spec fn ensure_all(
    m: Map<Seq<char>, CacheEntry>,
    id: Seq<char>,
    es: Seq<CacheEntry>,
) -> Map<Seq<char>, CacheEntry>
    decreases es.len(),
{
    if es.len() == 0 {
        m
    } else {
        ensure_all(ensure_step(m, id, es[0]), id, es.drop_first())
    }
}

/// Load steps for a key that is already present change nothing.
proof fn lemma_ensure_all_present(m: Map<Seq<char>, CacheEntry>, id: Seq<char>, es: Seq<CacheEntry>)
    requires
        m.dom().contains(id),
    ensures
        ensure_all(m, id, es) == m,
    decreases es.len(),
{
    if es.len() > 0 {
        lemma_ensure_all_present(m, id, es.drop_first());
    }
}

/// Law (idempotence): loading the same identifier twice leaves exactly the
/// state of the first load, whatever entry the second decode produced; after
/// a load of an unseen identifier every observer sees the first entry.
pub proof fn lemma_ensure_idempotent(
    m: Map<Seq<char>, CacheEntry>,
    id: Seq<char>,
    e1: CacheEntry,
    e2: CacheEntry,
)
    ensures
        ensure_step(ensure_step(m, id, e1), id, e2) == ensure_step(m, id, e1),
        !m.dom().contains(id) ==> ensure_step(m, id, e1)[id] == e1,
{
}

/// Law (convergence): however many loads of one unseen identifier ran, in
/// whatever interleaving of their decodes, the store ends with exactly one
/// entry for it — the first inserted one — and no other key moves.
pub proof fn lemma_ensure_converges(
    m: Map<Seq<char>, CacheEntry>,
    id: Seq<char>,
    es: Seq<CacheEntry>,
)
    requires
        es.len() > 0,
    ensures
        ensure_all(m, id, es) == ensure_step(m, id, es[0]),
        ensure_all(m, id, es).dom() =~= m.dom().insert(id),
        !m.dom().contains(id) ==> ensure_all(m, id, es)[id] == es[0],
        forall|k: Seq<char>|
            k != id && m.dom().contains(k) ==> #[trigger] ensure_all(m, id, es)[k] == m[k],
{
    let m1 = ensure_step(m, id, es[0]);
    lemma_ensure_all_present(m1, id, es.drop_first());
    if m.dom().contains(id) {
        assert(m1.dom() =~= m.dom().insert(id));
    }
}

/// The process-wide cache: a monotonic map from source identifier to entry.
pub struct Store {
    entries: Vec<(String, CacheEntry)>,
}

impl View for Store {
    type V = Map<Seq<char>, CacheEntry>;

    closed spec fn view(&self) -> Map<Seq<char>, CacheEntry> {
        map_of(self.entries@)
    }
}

impl Store {
    /// Well-formed: identifiers are unique and every entry is well-formed.
    pub closed spec fn wf(&self) -> bool {
        &&& unique_keys(self.entries@)
        &&& forall|i: int| 0 <= i < self.entries@.len() ==> (#[trigger] self.entries@[i]).1.wf()
    }

    /// Every entry of a well-formed store is well-formed.
    pub proof fn lemma_entries_wf(&self)
        requires
            self.wf(),
        ensures
            forall|k: Seq<char>| #[trigger] self@.dom().contains(k) ==> self@[k].wf(),
    {
        lemma_map_of_dom(self.entries@);
        assert forall|k: Seq<char>| #[trigger] self@.dom().contains(k) implies self@[k].wf() by {
            let i = choose|i: int| 0 <= i < self.entries@.len() && self.entries@[i].0@ == k;
            lemma_map_of_index(self.entries@, i);
        }
    }

    /// A new store is empty.
    pub fn new() -> (s: Store)
        ensures
            s@ == Map::<Seq<char>, CacheEntry>::empty(),
            s.wf(),
    {
        Store { entries: Vec::new() }
    }

    /// Returns the shared entry for an identifier, or absent.
    pub fn get<'a>(&'a self, id: &str) -> (r: Option<&'a CacheEntry>)
        requires
            self.wf(),
        ensures
            match r {
                Some(e) => self@.dom().contains(id@) && *e == self@[id@],
                None => !self@.dom().contains(id@),
            },
    {
        let mut k: usize = 0;
        while k < self.entries.len()
            invariant
                self.wf(),
                k <= self.entries@.len(),
                forall|j: int| 0 <= j < k ==> self.entries@[j].0@ != id@,
            decreases self.entries@.len() - k,
        {
            if str_eq(self.entries[k].0.as_str(), id) {
                proof {
                    lemma_map_of_index(self.entries@, k as int);
                }
                return Some(&self.entries[k].1);
            }
            k += 1;
        }
        proof {
            lemma_map_of_dom(self.entries@);
            if self@.dom().contains(id@) {
                let i = choose|i: int|
                    0 <= i < self.entries@.len() && self.entries@[i].0@ == id@;
                assert(false);
            }
        }
        None
    }

    /// Whether an identifier already has an entry.
    pub fn contains_id(&self, id: &str) -> (r: bool)
        requires
            self.wf(),
        ensures
            r == self@.dom().contains(id@),
    {
        match self.get(id) {
            Some(_) => true,
            None => false,
        }
    }

    /// Inserts an entry unless the identifier is already present; the first
    /// write for an identifier wins. Returns whether the entry went in.
    pub fn insert_new(&mut self, id: String, entry: CacheEntry) -> (fresh: bool)
        requires
            old(self).wf(),
            entry.wf(),
        ensures
            final(self).wf(),
            fresh == !old(self)@.dom().contains(id@),
            final(self)@ == ensure_step(old(self)@, id@, entry),
            !fresh ==> *final(self) == *old(self),
    {
        if self.contains_id(id.as_str()) {
            return false;
        }
        proof {
            lemma_map_of_dom(self.entries@);
            assert forall|i: int|
                0 <= i < self.entries@.len() implies (#[trigger] self.entries@[i]).0@ != id@ by {
                if self.entries@[i].0@ == id@ {
                    assert(exists|j: int|
                        0 <= j < self.entries@.len() && self.entries@[j].0@ == id@);
                }
            }
        }
        let ghost before = self.entries@;
        self.entries.push((id, entry));
        proof {
            assert(self.entries@.drop_last() =~= before);
            assert(map_of(self.entries@) == map_of(before).insert(self.entries@.last().0@, entry));
        }
        true
    }

    /// Loads a source once: if the identifier is already present, returns
    /// Ok(false) immediately, inspecting nothing. Otherwise decodes the blob
    /// against its announced shape, attaches the statistics, inserts the
    /// entry, and returns Ok(true); a format failure leaves the store without
    /// a new entry for the identifier. The statistics are handed in as bit
    /// patterns; their numeric consistency with the tensor is the caller's
    /// concern, their lengths are checked here by precondition.
    pub fn ensure(
        &mut self,
        id: String,
        bytes: &Vec<u8>,
        shape: Shape,
        norms: Vec<u32>,
        means: Vec<u32>,
    ) -> (r: Result<bool, SimError>)
        requires
            old(self).wf(),
            shape.fits(),
            norms@.len() == shape.steps * shape.cells(),
            means@.len() == shape.steps * shape.m,
        ensures
            final(self).wf(),
            r == Ok::<bool, SimError>(false) <==> old(self)@.dom().contains(id@),
            old(self)@.dom().contains(id@) ==> *final(self) == *old(self),
            !old(self)@.dom().contains(id@) ==> match r {
                Ok(fresh) => {
                    &&& fresh
                    &&& bytes@.len() % 2 == 0
                    &&& bytes@.len() == 2 * shape.count()
                    &&& final(self)@ == old(self)@.insert(id@, final(self)@[id@])
                    &&& final(self)@[id@].tensor.shape == shape
                    &&& final(self)@[id@].tensor.data@ == words_of_bytes(bytes@)
                    &&& final(self)@[id@].stats.norms@ == norms@
                    &&& final(self)@[id@].stats.means@ == means@
                },
                Err(e) => {
                    &&& (bytes@.len() % 2 != 0 || bytes@.len() != 2 * shape.count())
                    &&& e == (if bytes@.len() % 2 != 0 {
                        SimError::Format(crate::error::FormatFault::OddLength)
                    } else {
                        SimError::Format(crate::error::FormatFault::CountMismatch)
                    })
                    &&& *final(self) == *old(self)
                },
            },
    {
        if self.contains_id(id.as_str()) {
            return Ok(false);
        }
        let tensor = match decode_blob(bytes, shape) {
            Ok(t) => t,
            Err(e) => {
                return Err(e);
            },
        };
        let entry = CacheEntry { tensor, stats: Statistics { norms, means } };
        Ok(self.insert_new(id, entry))
    }
}

} // verus!
