//! Transactional state layer for a key-value store.
//!
//! Writes made during one call are staged in an overlay on top of a read-only
//! backend and become durable only if the call succeeds; otherwise they are
//! discarded wholesale.

pub mod backend;
pub mod codec;
pub mod ext;

use vstd::prelude::*;

verus! {

/// Updates to be committed to the state.
///
/// A `Storage` update carries a key and a value; an empty value is a deletion
/// tombstone, never a legitimate stored value.
pub enum Update {
    /// Set storage of object at given key -- empty is deletion.
    Storage(Vec<u8>, Vec<u8>),
}

/// The map described by an association list, later entries winning over
/// earlier ones with the same key.
spec fn assoc_view(entries: Seq<(Vec<u8>, Vec<u8>)>) -> Map<Seq<u8>, Seq<u8>>
    decreases entries.len(),
{
    if entries.len() == 0 {
        Map::empty()
    } else {
        assoc_view(entries.drop_last()).insert(entries.last().0@, entries.last().1@)
    }
}

// in-memory section of the state.
struct MemoryState {
    storage: Vec<(Vec<u8>, Vec<u8>)>,
}

impl View for MemoryState {
    type V = Map<Seq<u8>, Seq<u8>>;

    closed spec fn view(&self) -> Map<Seq<u8>, Seq<u8>> {
        assoc_view(self.storage@)
    }
}

proof fn lemma_assoc_view_take_step(entries: Seq<(Vec<u8>, Vec<u8>)>, i: int)
    requires
        0 <= i < entries.len(),
    ensures
        assoc_view(entries.take(i + 1)) == assoc_view(entries.take(i)).insert(
            entries[i].0@,
            entries[i].1@,
        ),
{
    assert(entries.take(i + 1).drop_last() =~= entries.take(i));
    assert(entries.take(i + 1).last() == entries[i]);
}

impl MemoryState {
    fn new() -> (r: Self)
        ensures
            r@ == Map::<Seq<u8>, Seq<u8>>::empty(),
    {
        MemoryState { storage: Vec::new() }
    }

    fn storage(&self, key: &[u8]) -> (r: Option<Vec<u8>>)
        ensures
            match r {
                Some(v) => self@.contains_key(key@) && self@[key@] == v@,
                None => !self@.contains_key(key@),
            },
    {
        let mut found: Option<Vec<u8>> = None;
        let mut i: usize = 0;
        while i < self.storage.len()
            invariant
                i <= self.storage.len(),
                match found {
                    Some(v) => assoc_view(self.storage@.take(i as int)).contains_key(key@)
                        && assoc_view(self.storage@.take(i as int))[key@] == v@,
                    None => !assoc_view(self.storage@.take(i as int)).contains_key(key@),
                },
            decreases self.storage.len() - i,
        {
            proof {
                lemma_assoc_view_take_step(self.storage@, i as int);
            }
            if codec::bytes_eq(self.storage[i].0.as_slice(), key) {
                found = Some(codec::clone_bytes(&self.storage[i].1));
            }
            i += 1;
        }
        proof {
            assert(self.storage@.take(self.storage.len() as int) =~= self.storage@);
        }
        found
    }

    fn set_storage(&mut self, key: Vec<u8>, val: Vec<u8>)
        ensures
            final(self)@ == old(self)@.insert(key@, val@),
    {
        let ghost before = self.storage@;
        let ghost k = key@;
        let ghost v = val@;
        self.storage.push((key, val));
        proof {
            assert(self.storage@.drop_last() =~= before);
            assert(self.storage@.last().0@ == k);
            assert(self.storage@.last().1@ == v);
        }
    }

    fn remove(&mut self, key: &[u8])
        ensures
            final(self)@ == old(self)@.remove(key@),
    {
        let ghost before = self.storage@;
        let mut kept: Vec<(Vec<u8>, Vec<u8>)> = Vec::new();
        let mut i: usize = 0;
        while i < self.storage.len()
            invariant
                i <= self.storage.len(),
                self.storage@ == before,
                assoc_view(kept@) == assoc_view(before.take(i as int)).remove(key@),
            decreases self.storage.len() - i,
        {
            proof {
                lemma_assoc_view_take_step(before, i as int);
            }
            let ghost kept_before = kept@;
            if !codec::bytes_eq(self.storage[i].0.as_slice(), key) {
                let k = codec::clone_bytes(&self.storage[i].0);
                let v = codec::clone_bytes(&self.storage[i].1);
                kept.push((k, v));
                proof {
                    assert(kept@.drop_last() =~= kept_before);
                    assert(assoc_view(kept@) =~= assoc_view(before.take(i + 1)).remove(key@));
                }
            } else {
                proof {
                    assert(assoc_view(kept@) =~= assoc_view(before.take(i + 1)).remove(key@));
                }
            }
            i += 1;
        }
        proof {
            assert(before.take(self.storage.len() as int) =~= before);
        }
        self.storage = kept;
    }

    fn update(&mut self, changes: Vec<Update>)
        ensures
            final(self)@ == apply_updates(old(self)@, changes@),
    {
        let ghost start = self@;
        let mut i: usize = 0;
        while i < changes.len()
            invariant
                i <= changes.len(),
                self@ == apply_updates(start, changes@.take(i as int)),
            decreases changes.len() - i,
        {
            proof {
                assert(changes@.take(i + 1).drop_last() =~= changes@.take(i as int));
                assert(changes@.take(i + 1).last() == changes@[i as int]);
            }
            match &changes[i] {
                Update::Storage(key, val) => {
                    if val.len() == 0 {
                        self.remove(key.as_slice());
                    } else {
                        let k = codec::clone_bytes(key);
                        let v = codec::clone_bytes(val);
                        self.set_storage(k, v);
                    }
                },
            }
            i += 1;
        }
        proof {
            assert(changes@.take(changes.len() as int) =~= changes@);
        }
    }
}

/// The value a read-through-overlay resolves for `key`: the prospective layer
/// first, then the committed layer; a resolved empty value reads as absent.
pub open spec fn overlay_read(
    prospective: Map<Seq<u8>, Seq<u8>>,
    committed: Map<Seq<u8>, Seq<u8>>,
    key: Seq<u8>,
) -> Option<Seq<u8>> {
    let raw = if prospective.contains_key(key) {
        Some(prospective[key])
    } else if committed.contains_key(key) {
        Some(committed[key])
    } else {
        None
    };
    match raw {
        Some(v) => if v.len() == 0 {
            None
        } else {
            Some(v)
        },
        None => None,
    }
}

/// The committed layer after a commit: every prospective entry is applied as
/// an update, so an empty prospective value deletes the key and a non-empty
/// one upserts it.
pub open spec fn merge(
    committed: Map<Seq<u8>, Seq<u8>>,
    prospective: Map<Seq<u8>, Seq<u8>>,
) -> Map<Seq<u8>, Seq<u8>> {
    Map::new(
        |k: Seq<u8>|
            (prospective.contains_key(k) && prospective[k].len() > 0) || (committed.contains_key(k)
                && !prospective.contains_key(k)),
        |k: Seq<u8>|
            if prospective.contains_key(k) {
                prospective[k]
            } else {
                committed[k]
            },
    )
}

/// The overlayed changes to state to be queried on top of the backend.
///
/// A transaction shares all prospective changes within an inner overlay
/// that can be cleared.
pub struct OverlayedChanges {
    prospective: MemoryState,
    committed: MemoryState,
}

impl Default for OverlayedChanges {
    fn default() -> (r: Self)
        ensures
            r.prospective_map() == Map::<Seq<u8>, Seq<u8>>::empty(),
            r.committed_map() == Map::<Seq<u8>, Seq<u8>>::empty(),
    {
        OverlayedChanges { prospective: MemoryState::new(), committed: MemoryState::new() }
    }
}

impl OverlayedChanges {
    /// The speculative layer, as a map.
    pub closed spec fn prospective_map(&self) -> Map<Seq<u8>, Seq<u8>> {
        self.prospective@
    }

    /// The accepted layer, as a map.
    pub closed spec fn committed_map(&self) -> Map<Seq<u8>, Seq<u8>> {
        self.committed@
    }

    /// What a read of `key` resolves to in this overlay.
    pub open spec fn read_spec(&self, key: Seq<u8>) -> Option<Seq<u8>> {
        overlay_read(self.prospective_map(), self.committed_map(), key)
    }

    /// Read through the overlay: prospective first, then committed; an empty
    /// resolved value is reported as absent.
    pub fn storage(&self, key: &[u8]) -> (r: Option<Vec<u8>>)
        ensures
            r.deep_view() == self.read_spec(key@),
    {
        let resolved = match self.prospective.storage(key) {
            Some(v) => Some(v),
            None => self.committed.storage(key),
        };
        match resolved {
            Some(v) => if v.len() == 0 {
                None
            } else {
                Some(v)
            },
            None => None,
        }
    }

    /// Record a write; only the prospective layer is touched.
    pub fn set_storage(&mut self, key: Vec<u8>, val: Vec<u8>)
        ensures
            final(self).prospective_map() == old(self).prospective_map().insert(key@, val@),
            final(self).committed_map() == old(self).committed_map(),
    {
        self.prospective.set_storage(key, val);
    }

    /// Discard prospective changes to state.
    pub fn discard_prospective(&mut self)
        ensures
            final(self).prospective_map() == Map::<Seq<u8>, Seq<u8>>::empty(),
            final(self).committed_map() == old(self).committed_map(),
    {
        self.prospective.storage.clear();
        proof {
            assert(self.prospective.storage@ =~= Seq::<(Vec<u8>, Vec<u8>)>::empty());
        }
    }

    /// Commit prospective changes to state: the prospective layer is drained
    /// and each entry applied against the committed layer. Reads are
    /// unchanged by a commit.
    pub fn commit_prospective(&mut self)
        ensures
            final(self).prospective_map() == Map::<Seq<u8>, Seq<u8>>::empty(),
            final(self).committed_map() == merge(
                old(self).committed_map(),
                old(self).prospective_map(),
            ),
            forall|k: Seq<u8>| final(self).read_spec(k) == old(self).read_spec(k),
    {
        let ghost old_committed = self.committed@;
        let ghost old_prospective = self.prospective@;
        let ghost entries = self.prospective.storage@;
        let mut storage_updates: Vec<Update> = Vec::new();
        let mut i: usize = 0;
        while i < self.prospective.storage.len()
            invariant
                i <= self.prospective.storage.len(),
                self.prospective.storage@ == entries,
                self.committed@ == old_committed,
                storage_updates@.len() == i,
                forall|j: int|
                    0 <= j < i ==> (#[trigger] storage_updates@[j] matches Update::Storage(k, v)
                        && k@ == entries[j].0@ && v@ == entries[j].1@),
            decreases self.prospective.storage.len() - i,
        {
            let key = codec::clone_bytes(&self.prospective.storage[i].0);
            let value = codec::clone_bytes(&self.prospective.storage[i].1);
            storage_updates.push(Update::Storage(key, value));
            i += 1;
        }
        self.committed.update(storage_updates);
        self.prospective.storage.clear();
        proof {
            assert(self.prospective.storage@ =~= Seq::<(Vec<u8>, Vec<u8>)>::empty());
            lemma_apply_matching_updates_is_merge(
                old_committed,
                storage_updates@,
                entries,
            );
            assert forall|k: Seq<u8>| final(self).read_spec(k) == old(self).read_spec(k) by {
                lemma_commit_read_transparent(old_committed, old_prospective, k);
            }
        }
    }

    /// The current code blob: the value stored under the reserved `\0code`
    /// key, or empty when that key does not resolve.
    pub open spec fn code_spec(&self) -> Seq<u8> {
        match self.read_spec(codec::code_key()) {
            Some(v) => v,
            None => Seq::empty(),
        }
    }

    /// The current code blob, read through the ordinary overlay read path at
    /// the reserved `\0code` key; absent reads as an empty blob.
    pub fn code(&self) -> (r: Vec<u8>)
        ensures
            r@ == self.code_spec(),
    {
        let key = codec::code_key_vec();
        match self.storage(key.as_slice()) {
            Some(v) => {
                proof {
                    assert(v@ =~= v.deep_view());
                }
                v
            },
            None => Vec::new(),
        }
    }

    /// Record a code replacement through the same write path as any other
    /// key.
    pub fn set_code(&mut self, code: Vec<u8>)
        ensures
            final(self).prospective_map() == old(self).prospective_map().insert(
                codec::code_key(),
                code@,
            ),
            final(self).committed_map() == old(self).committed_map(),
    {
        self.set_storage(codec::code_key_vec(), code);
    }
}

/// Applying updates that mirror an association list's entries produces
/// exactly the merge of that list's map into the base map.
proof fn lemma_apply_matching_updates_is_merge(
    base: Map<Seq<u8>, Seq<u8>>,
    us: Seq<Update>,
    entries: Seq<(Vec<u8>, Vec<u8>)>,
)
    requires
        us.len() == entries.len(),
        forall|j: int|
            0 <= j < us.len() ==> (#[trigger] us[j] matches Update::Storage(k, v) && k@
                == entries[j].0@ && v@ == entries[j].1@),
    ensures
        apply_updates(base, us) == merge(base, assoc_view(entries)),
    decreases us.len(),
{
    if us.len() == 0 {
        assert(apply_updates(base, us) == base);
        assert(merge(base, assoc_view(entries)) =~= base);
    } else {
        let us0 = us.drop_last();
        let es0 = entries.drop_last();
        lemma_apply_matching_updates_is_merge(base, us0, es0);
        let u = us.last();
        let e = entries.last();
        assert(us[us.len() - 1] matches Update::Storage(k, v) && k@ == e.0@ && v@ == e.1@);
        assert(apply_updates(base, us) == apply_update(merge(base, assoc_view(es0)), u));
        assert(assoc_view(entries) == assoc_view(es0).insert(e.0@, e.1@));
        assert(apply_update(merge(base, assoc_view(es0)), u) =~= merge(
            base,
            assoc_view(es0).insert(e.0@, e.1@),
        ));
    }
}

/// Committing is read-transparent: a read resolves identically before and
/// after the prospective layer is merged into the committed layer.
pub proof fn lemma_commit_read_transparent(
    committed: Map<Seq<u8>, Seq<u8>>,
    prospective: Map<Seq<u8>, Seq<u8>>,
    key: Seq<u8>,
)
    ensures
        overlay_read(Map::empty(), merge(committed, prospective), key) == overlay_read(
            prospective,
            committed,
            key,
        ),
{
}

/// The map that results from applying one `Update`: an empty value removes the
/// key, a non-empty value upserts it.
pub open spec fn apply_update(m: Map<Seq<u8>, Seq<u8>>, u: Update) -> Map<Seq<u8>, Seq<u8>> {
    match u {
        Update::Storage(key, val) => if val@.len() == 0 {
            m.remove(key@)
        } else {
            m.insert(key@, val@)
        },
    }
}

/// The map that results from applying a sequence of `Update`s in order.
pub open spec fn apply_updates(m: Map<Seq<u8>, Seq<u8>>, us: Seq<Update>) -> Map<Seq<u8>, Seq<u8>>
    decreases us.len(),
{
    if us.len() == 0 {
        m
    } else {
        apply_update(apply_updates(m, us.drop_last()), us.last())
    }
}

/// State Machine Error bound.
///
/// This should reflect WASM error type bound for future compatibility.
pub trait Error: 'static + core::fmt::Debug + core::fmt::Display + Send {}

impl<E> Error for E where E: 'static + core::fmt::Debug + core::fmt::Display + Send {}

/// Call data handed through to the executor; opaque to the state machine.
pub struct CallData(pub Vec<u8>);

/// Externalities: pinned to specific active address.
pub trait Externalities {
    /// Externalities error type.
    type Error: Error;

    /// The read surface this externality exposes, as one total view: the
    /// bytes a successful read resolves for `key`. An absent key resolves to
    /// whatever the underlying store reports for it, conventionally empty
    /// bytes.
    spec fn storage_at(&self, key: Seq<u8>) -> Seq<u8>;

    /// The committed portion of the state behind this externality. Writes
    /// made through this surface only stage changes: none of them reaches
    /// the committed layer until the orchestrating caller commits.
    spec fn committed_view(&self) -> Map<Seq<u8>, Seq<u8>>;

    /// Read the code of the current contract being called.
    fn code(&self) -> Result<Vec<u8>, Self::Error>;

    /// Read storage of current contract being called.
    fn storage(&self, key: &[u8]) -> (r: Result<Vec<u8>, Self::Error>)
        ensures
            r matches Ok(v) ==> v@ == self.storage_at(key@),
    ;

    /// Set storage of current contract being called (effective immediately
    /// for later reads, invisible to the committed layer).
    fn set_storage(&mut self, key: Vec<u8>, value: Vec<u8>)
        ensures
            final(self).committed_view() == old(self).committed_view(),
            value@.len() > 0 ==> final(self).storage_at(key@) == value@,
    ;

    /// Replace the code of the current contract, through the same write path
    /// as any other key.
    fn set_code(&mut self, code: Vec<u8>)
        ensures
            final(self).committed_view() == old(self).committed_view(),
    ;

    /// Get the current set of validators: the count is the little-endian
    /// value of the bytes at the reserved count key, and the entry for each
    /// index `i` in `0..count`, in order, is the value read at the reserved
    /// prefix followed by the little-endian encoding of `i`. Any failing
    /// read aborts the whole operation with that error.
    fn validators(&self) -> (r: Result<Vec<Vec<u8>>, Self::Error>)
        ensures
            r matches Ok(v) ==> v@.len() == codec::le_value_capped(
                self.storage_at(codec::validator_count_key()),
            ),
            r matches Ok(v) ==> (forall|i: int|
                0 <= i < v@.len() ==> v@[i]@ == self.storage_at(
                    codec::validator_prefix() + codec::le_bytes(i as nat),
                )),
    {
        let count_key = codec::validator_count_key_vec();
        let count_bytes = match self.storage(count_key.as_slice()) {
            Ok(b) => b,
            Err(e) => {
                return Err(e);
            },
        };
        let n = codec::decode_value(count_bytes.as_slice());
        let mut result: Vec<Vec<u8>> = Vec::new();
        let mut i: usize = 0;
        while i < n
            invariant
                i <= n,
                n == codec::le_value_capped(self.storage_at(codec::validator_count_key())),
                result@.len() == i,
                forall|j: int|
                    0 <= j < i ==> result@[j]@ == self.storage_at(
                        codec::validator_prefix() + codec::le_bytes(j as nat),
                    ),
            decreases n - i,
        {
            let key = codec::value_vec(i, codec::validator_prefix_vec());
            match self.storage(key.as_slice()) {
                Ok(v) => result.push(v),
                Err(e) => {
                    return Err(e);
                },
            }
            i += 1;
        }
        Ok(result)
    }
}

/// Code execution engine.
pub trait CodeExecutor: Sized {
    /// Externalities error type.
    type Error: Error;

    /// Call a given method in the runtime.
    ///
    /// An executor reaches state only through the externalities surface it is
    /// handed, whose writes stage changes without touching the committed
    /// layer; so every call, successful or not, leaves the committed view as
    /// it found it.
    fn call<E: Externalities>(
        &self,
        ext: &mut E,
        code: &[u8],
        method: &str,
        data: &CallData,
    ) -> (r: Result<Vec<u8>, Self::Error>)
        ensures
            final(ext).committed_view() == old(ext).committed_view(),
    ;
}

/// Execute a call using the given state backend, overlayed changes, and call
/// executor.
///
/// The prospective layer is left empty either way: on success it is committed
/// into the committed layer, on an error it is discarded. So a failed call,
/// whether the backend failed the code read or the executor failed the call,
/// leaves the committed layer exactly as it was, and no prospective change
/// ever outlives the call. A successful call leaves the committed layer
/// equal to the old one with one batch of staged writes merged in; which
/// writes those are is the executor's doing and cannot be named from
/// outside, so the contract states the merge shape existentially.
///
/// Note: changes to code will be in place if this call is made again. For
/// running partial blocks (e.g. a transaction at a time), ensure a different
/// method is used.
pub fn execute<B: backend::Backend, Exec: CodeExecutor>(
    backend: &B,
    overlay: &mut OverlayedChanges,
    exec: &Exec,
    method: &str,
    call_data: &CallData,
) -> (r: Result<Vec<u8>, ext::Error<B::Error, Exec::Error>>)
    ensures
        final(overlay).prospective_map() == Map::<Seq<u8>, Seq<u8>>::empty(),
        r is Err ==> final(overlay).committed_map() == old(overlay).committed_map(),
        r is Ok ==> (exists|writes: Map<Seq<u8>, Seq<u8>>|
            final(overlay).committed_map() == merge(old(overlay).committed_map(), writes)),
{
    let ghost old_committed = overlay.committed_map();
    let mut taken = OverlayedChanges::default();
    core::mem::swap(overlay, &mut taken);
    let mut externalities = ext::Ext { overlay: taken, backend };

    let code_key = codec::code_key_vec();
    let result = match externalities.storage(code_key.as_slice()) {
        Ok(code) => match exec.call(&mut externalities, code.as_slice(), method, call_data) {
            Ok(out) => Ok(out),
            Err(e) => Err(ext::Error::Executor(e)),
        },
        Err(e) => Err(ext::Error::Backend(e)),
    };

    let ext::Ext { overlay: inner, backend: _ } = externalities;
    proof {
        assert(inner.committed_map() == old_committed);
    }
    *overlay = inner;

    match result {
        Ok(out) => {
            let ghost writes = overlay.prospective_map();
            overlay.commit_prospective();
            proof {
                assert(overlay.committed_map() == merge(old_committed, writes));
            }
            Ok(out)
        },
        Err(e) => {
            overlay.discard_prospective();
            Err(e)
        },
    }
}

/// The prospective layer after a sequence of writes has been recorded into
/// it, in order.
pub open spec fn apply_writes(
    prospective: Map<Seq<u8>, Seq<u8>>,
    ws: Seq<(Seq<u8>, Seq<u8>)>,
) -> Map<Seq<u8>, Seq<u8>>
    decreases ws.len(),
{
    if ws.len() == 0 {
        prospective
    } else {
        apply_writes(prospective, ws.drop_last()).insert(ws.last().0, ws.last().1)
    }
}

/// `after` is `before` with the writes `ws` recorded, as `set_storage`
/// performs them: only the prospective layer changes.
pub open spec fn writes_applied(
    before: OverlayedChanges,
    after: OverlayedChanges,
    ws: Seq<(Seq<u8>, Seq<u8>)>,
) -> bool {
    &&& after.prospective_map() == apply_writes(before.prospective_map(), ws)
    &&& after.committed_map() == before.committed_map()
}

/// `after` is `before` with the prospective layer discarded, as
/// `discard_prospective` leaves it.
pub open spec fn discarded(before: OverlayedChanges, after: OverlayedChanges) -> bool {
    &&& after.prospective_map() == Map::<Seq<u8>, Seq<u8>>::empty()
    &&& after.committed_map() == before.committed_map()
}

/// Any sequence of writes followed by a discard restores every read to what
/// it was at the start of the prospective epoch (an overlay whose prospective
/// layer is empty).
pub proof fn lemma_writes_then_discard_restores_reads(
    epoch_start: OverlayedChanges,
    written: OverlayedChanges,
    after_discard: OverlayedChanges,
    ws: Seq<(Seq<u8>, Seq<u8>)>,
    key: Seq<u8>,
)
    requires
        epoch_start.prospective_map() == Map::<Seq<u8>, Seq<u8>>::empty(),
        writes_applied(epoch_start, written, ws),
        discarded(written, after_discard),
    ensures
        after_discard.read_spec(key) == epoch_start.read_spec(key),
{
}

/// A discard after a commit has no effect on any key: the prospective layer
/// is already empty, so both layers and every read stay as they are.
pub proof fn lemma_discard_after_commit_is_noop(
    committed_state: OverlayedChanges,
    after_discard: OverlayedChanges,
    key: Seq<u8>,
)
    requires
        committed_state.prospective_map() == Map::<Seq<u8>, Seq<u8>>::empty(),
        discarded(committed_state, after_discard),
    ensures
        after_discard.prospective_map() == committed_state.prospective_map(),
        after_discard.committed_map() == committed_state.committed_map(),
        after_discard.read_spec(key) == committed_state.read_spec(key),
{
}

/// Writing an empty value for a key and then committing removes the key from
/// the committed layer: it is no longer present there, and a read no longer
/// resolves it, not even as empty.
pub proof fn lemma_empty_write_then_commit_removes_key(
    committed: Map<Seq<u8>, Seq<u8>>,
    prospective: Map<Seq<u8>, Seq<u8>>,
    key: Seq<u8>,
)
    requires
        committed.contains_key(key),
    ensures
        !merge(committed, prospective.insert(key, Seq::empty())).contains_key(key),
        overlay_read(
            Map::empty(),
            merge(committed, prospective.insert(key, Seq::empty())),
            key,
        ) is None,
{
}

/// Discarding twice in a row is equivalent to discarding once: the second
/// discard changes neither layer.
pub proof fn lemma_discard_idempotent(
    start: OverlayedChanges,
    once: OverlayedChanges,
    twice: OverlayedChanges,
)
    requires
        discarded(start, once),
        discarded(once, twice),
    ensures
        twice.prospective_map() == once.prospective_map(),
        twice.committed_map() == once.committed_map(),
{
}

} // verus!
