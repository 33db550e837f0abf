use vstd::prelude::*;

verus! {

/// Largest accepted size of ciphertext and nonce together, in bytes.
pub const MAX_ENCRYPTED_SIZE: usize = 10 * 1024 * 1024;

/// Exact length of an accepted nonce, in bytes.
pub const NONCE_LENGTH: usize = 12;

/// Longest identifier that a lookup accepts, in characters.
pub const MAX_ID_LENGTH: usize = 50;

/// Retention window of a record, in milliseconds (24 hours).
pub const EXPIRY_MILLIS: u64 = 24 * 60 * 60 * 1000;

/// Period of the expiry sweep, in milliseconds (1 hour): how long a record may
/// outlive its retention window.
pub const CLEANUP_INTERVAL_MILLIS: u64 = 60 * 60 * 1000;

/// A stored paste: opaque bytes and the time at which they were acceptted.
pub struct Paste {
    pub ciphertext: Vec<u8>,
    pub nonce: Vec<u8>,
    /// Milliseconds on the caller's monotonic clock.
    pub created_at: u64,
}

/// The mathematical value of a [`Paste`].
pub struct PasteView {
    pub ciphertext: Seq<u8>,
    pub nonce: Seq<u8>,
    pub created_at: u64,
}

impl View for Paste {
    type V = PasteView;

    open spec fn view(&self) -> PasteView {
        PasteView { ciphertext: self.ciphertext@, nonce: self.nonce@, created_at: self.created_at }
    }
}

/// Why an acceptance was refused.
#[derive(Debug, Clone, Copy, PartialEq, Eq, Structural)]
pub enum AcceptError {
    /// The nonce is not exactly `NONCE_LENGTH` bytes long.
    InvalidNonce,
    /// The ciphertext is empty, or ciphertext and nonce exceed `MAX_ENCRYPTED_SIZE`.
    InvalidPayload,
    /// The identifier is already taken; a new attempt draws a fresh one.
    StorageConflict,
}

/// Why a lookup found nothing.
#[derive(Debug, Clone, Copy, PartialEq, Eq, Structural)]
pub enum FetchError {
    /// The identifier is empty or longer than `MAX_ID_LENGTH` characters.
    InvalidId,
    /// No live record has this identifier.
    NotFound,
}

/// The contents of a store: identifier to record.
pub type StoreMap = Map<Seq<char>, PasteView>;

/// The refusal, if any, that sizes of ciphertext and nonce draw on acceptance.
pub open spec fn acceptance_error(ciphertext_len: nat, nonce_len: nat) -> Option<AcceptError> {
    if nonce_len != NONCE_LENGTH {
        Some(AcceptError::InvalidNonce)
    } else if ciphertext_len == 0 || ciphertext_len + nonce_len > MAX_ENCRYPTED_SIZE {
        Some(AcceptError::InvalidPayload)
    } else {
        None
    }
}

/// The record that an acceptance at `now` stores.
pub open spec fn new_record(ciphertext: Seq<u8>, nonce: Seq<u8>, now: u64) -> PasteView {
    PasteView { ciphertext, nonce, created_at: now }
}

/// Acceptance of a payload under a given identifier: the store after it, and the outcome.
pub open spec fn accept_spec(
    m: StoreMap,
    id: Seq<char>,
    ciphertext: Seq<u8>,
    nonce: Seq<u8>,
    now: u64,
) -> (StoreMap, Result<Seq<char>, AcceptError>) {
    match acceptance_error(ciphertext.len(), nonce.len()) {
        Some(e) => (m, Err(e)),
        None => if m.contains_key(id) {
            (m, Err(AcceptError::StorageConflict))
        } else {
            (m.insert(id, new_record(ciphertext, nonce, now)), Ok(id))
        },
    }
}

/// An identifier that a lookup accepts: non-empty, at most `MAX_ID_LENGTH` characters.
pub open spec fn is_valid_id(id: Seq<char>) -> bool {
    0 < id.len() <= MAX_ID_LENGTH
}

/// The outcome of a lookup of `id` in `m`.
pub open spec fn fetch_spec(m: StoreMap, id: Seq<char>) -> Result<PasteView, FetchError> {
    if !is_valid_id(id) {
        Err(FetchError::InvalidId)
    } else if m.contains_key(id) {
        Ok(m[id])
    } else {
        Err(FetchError::NotFound)
    }
}

/// Time elapsed since `created_at`, zero for a clock reading before it.
pub open spec fn age(created_at: u64, now: u64) -> nat {
    if now >= created_at {
        (now - created_at) as nat
    } else {
        0
    }
}

/// A record older than the retention window at `now`.
pub open spec fn is_expired(p: PasteView, now: u64) -> bool {
    age(p.created_at, now) > EXPIRY_MILLIS
}

/// The records of `m` that are not expired at `now`.
pub open spec fn reap_spec(m: StoreMap, now: u64) -> StoreMap {
    Map::new(|k: Seq<char>| m.contains_key(k) && !is_expired(m[k], now), |k: Seq<char>| m[k])
}

/// The view of an acceptance's outcome.
pub open spec fn outcome_view(r: Result<String, AcceptError>) -> Result<Seq<char>, AcceptError> {
    match r {
        Ok(id) => Ok(id@),
        Err(e) => Err(e),
    }
}

struct Entry {
    id: String,
    paste: Paste,
}

spec fn entries_map(s: Seq<Entry>) -> StoreMap
    decreases s.len(),
{
    if s.len() == 0 {
        Map::empty()
    } else {
        entries_map(s.drop_last()).insert(s.last().id@, s.last().paste@)
    }
}

spec fn has_id(s: Seq<Entry>, k: Seq<char>) -> bool {
    exists|i: int| 0 <= i < s.len() && #[trigger] s[i].id@ == k
}

spec fn unique_ids(s: Seq<Entry>) -> bool {
    forall|i: int, j: int| 0 <= i < s.len() && 0 <= j < s.len() && i != j ==> s[i].id@ != s[j].id@
}

spec fn all_acceptable(s: Seq<Entry>) -> bool {
    forall|i: int|
        0 <= i < s.len() ==> acceptance_error(
            (#[trigger] s[i]).paste.ciphertext@.len(),
            s[i].paste.nonce@.len(),
        ) is None
}

proof fn lemma_entries_map_contains(s: Seq<Entry>, k: Seq<char>)
    ensures
        entries_map(s).contains_key(k) <==> has_id(s, k),
    decreases s.len(),
{
    if s.len() > 0 {
        let t = s.drop_last();
        lemma_entries_map_contains(t, k);
        if has_id(t, k) {
            let i = choose|i: int| 0 <= i < t.len() && #[trigger] t[i].id@ == k;
            assert(s[i] == t[i]);
        }
        if has_id(s, k) && s.last().id@ != k {
            let i = choose|i: int| 0 <= i < s.len() && #[trigger] s[i].id@ == k;
            assert(t[i] == s[i]);
        }
    }
}

proof fn lemma_entries_map_value(s: Seq<Entry>, i: int)
    requires
        unique_ids(s),
        0 <= i < s.len(),
    ensures
        entries_map(s).contains_key(s[i].id@),
        entries_map(s)[s[i].id@] == s[i].paste@,
    decreases s.len(),
{
    let t = s.drop_last();
    if i < s.len() - 1 {
        assert(t[i] == s[i]);
        lemma_entries_map_value(t, i);
    }
}

proof fn lemma_entries_map_len(s: Seq<Entry>)
    requires
        unique_ids(s),
    ensures
        entries_map(s).dom().finite(),
        entries_map(s).len() == s.len(),
    decreases s.len(),
{
    if s.len() > 0 {
        let t = s.drop_last();
        lemma_entries_map_len(t);
        lemma_entries_map_contains(t, s.last().id@);
        if has_id(t, s.last().id@) {
            let i = choose|i: int| 0 <= i < t.len() && #[trigger] t[i].id@ == s.last().id@;
            assert(s[i] == t[i]);
        }
    }
}

/// The records of a store, held as a sequence with pairwise distinct identifiers.
pub struct PasteStore {
    entries: Vec<Entry>,
}

impl View for PasteStore {
    type V = StoreMap;

    closed spec fn view(&self) -> StoreMap {
        entries_map(self.entries@)
    }
}

fn acceptance_check(ciphertext_len: usize, nonce_len: usize) -> (r: Option<AcceptError>)
    ensures
        r == acceptance_error(ciphertext_len as nat, nonce_len as nat),
{
    if nonce_len != NONCE_LENGTH {
        Some(AcceptError::InvalidNonce)
    } else if ciphertext_len == 0 || ciphertext_len > MAX_ENCRYPTED_SIZE - NONCE_LENGTH {
        Some(AcceptError::InvalidPayload)
    } else {
        None
    }
}

fn expired(p: &Paste, now: u64) -> (r: bool)
    ensures
        r == is_expired(p@, now),
{
    let elapsed: u64 = if now >= p.created_at {
        now - p.created_at
    } else {
        0
    };
    elapsed > EXPIRY_MILLIS
}

impl PasteStore {
    /// Well-formed: identifiers are pairwise distinct and every record has acceptable sizes.
    pub closed spec fn wf(&self) -> bool {
        unique_ids(self.entries@) && all_acceptable(self.entries@)
    }

    /// An empty store.
    pub fn new() -> (r: PasteStore)
        ensures
            r.wf(),
            r@ == StoreMap::empty(),
    {
        PasteStore { entries: Vec::new() }
    }

    /// Number of live records.
    pub fn len(&self) -> (r: usize)
        requires
            self.wf(),
        ensures
            r == self@.len(),
    {
        proof {
            lemma_entries_map_len(self.entries@);
        }
        self.entries.len()
    }

    /// Every live record has acceptable sizes, and there are finitely many.
    pub proof fn lemma_live_records_acceptable(&self)
        requires
            self.wf(),
        ensures
            self@.dom().finite(),
            forall|k: Seq<char>|
                #[trigger] self@.contains_key(k) ==> acceptance_error(
                    self@[k].ciphertext.len(),
                    self@[k].nonce.len(),
                ) is None,
    {
        lemma_entries_map_len(self.entries@);
        assert forall|k: Seq<char>| #[trigger] self@.contains_key(k) implies acceptance_error(
            self@[k].ciphertext.len(),
            self@[k].nonce.len(),
        ) is None by {
            lemma_entries_map_contains(self.entries@, k);
            let i = choose|i: int|
                0 <= i < self.entries@.len() && #[trigger] self.entries@[i].id@ == k;
            lemma_entries_map_value(self.entries@, i);
        }
    }

    fn position(&self, id: &String) -> (r: Option<usize>)
        requires
            self.wf(),
        ensures
            match r {
                Some(i) => i < self.entries@.len() && self.entries@[i as int].id@ == id@,
                None => !self@.contains_key(id@),
            },
    {
        let mut i: usize = 0;
        while i < self.entries.len()
            invariant
                i <= self.entries@.len(),
                forall|j: int| 0 <= j < i ==> (#[trigger] self.entries@[j]).id@ != id@,
            decreases self.entries@.len() - i,
        {
            if self.entries[i].id == *id {
                return Some(i);
            }
            i += 1;
        }
        proof {
            lemma_entries_map_contains(self.entries@, id@);
        }
        None
    }

    /// Whether a record is stored under `id`.
    pub fn contains(&self, id: &String) -> (r: bool)
        requires
            self.wf(),
        ensures
            r == self@.contains_key(id@),
    {
        match self.position(id) {
            Some(i) => {
                proof {
                    lemma_entries_map_value(self.entries@, i as int);
                }
                true
            },
            None => false,
        }
    }

    /// The record stored under `id`, looked up only when `id` is a valid identifier.
    pub fn fetch(&self, id: &String) -> (r: Result<&Paste, FetchError>)
        requires
            self.wf(),
        ensures
            match r {
                Ok(p) => fetch_spec(self@, id@) == Ok::<PasteView, FetchError>(p@),
                Err(e) => fetch_spec(self@, id@) == Err::<PasteView, FetchError>(e),
            },
    {
        if !crate::ident::is_valid_lookup_id(id.as_str()) {
            return Err(FetchError::InvalidId);
        }
        match self.position(id) {
            Some(i) => {
                proof {
                    lemma_entries_map_value(self.entries@, i as int);
                }
                Ok(&self.entries[i].paste)
            },
            None => Err(FetchError::NotFound),
        }
    }

    /// Stores the payload under `id`, unless its sizes are refused or `id` is taken.
    pub fn accept_with_id(
        &mut self,
        id: String,
        ciphertext: Vec<u8>,
        nonce: Vec<u8>,
        now: u64,
    ) -> (r: Result<String, AcceptError>)
        requires
            old(self).wf(),
        ensures
            final(self).wf(),
            final(self)@ == accept_spec(old(self)@, id@, ciphertext@, nonce@, now).0,
            outcome_view(r) == accept_spec(old(self)@, id@, ciphertext@, nonce@, now).1,
    {
        if let Some(e) = acceptance_check(ciphertext.len(), nonce.len()) {
            return Err(e);
        }
        if let Some(i) = self.position(&id) {
            proof {
                lemma_entries_map_value(self.entries@, i as int);
            }
            return Err(AcceptError::StorageConflict);
        }
        let ghost before = self.entries@;
        let out = id.clone();
        let paste = Paste { ciphertext, nonce, created_at: now };
        self.entries.push(Entry { id, paste });
        proof {
            let s = self.entries@;
            assert(s.drop_last() =~= before);
            lemma_entries_map_contains(before, out@);
            assert forall|i: int, j: int|
                0 <= i < s.len() && 0 <= j < s.len() && i != j implies s[i].id@ != s[j].id@ by {
                if i < before.len() && j < before.len() {
                    assert(s[i] == before[i] && s[j] == before[j]);
                } else if i < before.len() {
                    assert(s[i] == before[i]);
                } else {
                    assert(s[j] == before[j]);
                }
            }
            assert forall|i: int| 0 <= i < s.len() implies acceptance_error(
                (#[trigger] s[i]).paste.ciphertext@.len(),
                s[i].paste.nonce@.len(),
            ) is None by {
                if i < before.len() {
                    assert(s[i] == before[i]);
                }
            }
        }
        Ok(out)
    }

    /// Stores the payload under a freshly drawn identifier.
    ///
    /// Sizes are checked before an identifier is drawn. A drawn identifier that is
    /// already taken refuses the acceptance and leaves the store as it was.
    pub fn accept(&mut self, ciphertext: Vec<u8>, nonce: Vec<u8>, now: u64) -> (r: Result<
        String,
        AcceptError,
    >)
        requires
            old(self).wf(),
        ensures
            final(self).wf(),
            acceptance_error(ciphertext@.len(), nonce@.len()) matches Some(e) ==> r == Err::<
                String,
                AcceptError,
            >(e) && final(self)@ == old(self)@,
            acceptance_error(ciphertext@.len(), nonce@.len()) is None ==> match r {
                Ok(id) => {
                    &&& crate::ident::is_paste_id(id@)
                    &&& !old(self)@.contains_key(id@)
                    &&& final(self)@ == old(self)@.insert(id@, new_record(ciphertext@, nonce@, now))
                },
                Err(e) => {
                    &&& e == AcceptError::StorageConflict
                    &&& final(self)@ == old(self)@
                    &&& exists|k: Seq<char>| #[trigger]
                        old(self)@.contains_key(k) && crate::ident::is_paste_id(k)
                },
            },
    {
        if let Some(e) = acceptance_check(ciphertext.len(), nonce.len()) {
            return Err(e);
        }
        let id = crate::ident::generate_paste_id();
        let ghost drawn = id@;
        let r = self.accept_with_id(id, ciphertext, nonce, now);
        proof {
            if r is Err {
                assert(old(self)@.contains_key(drawn));
            }
        }
        r
    }

    /// Removes every record that is expired at `now`, and returns how many it removed.
    pub fn reap_expired(&mut self, now: u64) -> (removed: usize)
        requires
            old(self).wf(),
        ensures
            final(self).wf(),
            final(self)@ == reap_spec(old(self)@, now),
            removed == old(self)@.len() - final(self)@.len(),
    {
        let ghost orig = self.entries@;
        let total = self.entries.len();
        let mut kept: Vec<Entry> = Vec::new();
        proof {
            lemma_entries_map_len(orig);
            assert(reap_spec(entries_map(orig), now) =~= reap_spec(
                entries_map(orig),
                now,
            ).union_prefer_right(entries_map(kept@)));
        }
        while self.entries.len() > 0
            invariant
                total == orig.len(),
                kept@.len() + self.entries@.len() <= total,
                unique_ids(self.entries@),
                unique_ids(kept@),
                all_acceptable(self.entries@),
                all_acceptable(kept@),
                forall|i: int, j: int|
                    0 <= i < self.entries@.len() && 0 <= j < kept@.len() ==> (#[trigger] self.entries@[i]).id@
                        != (#[trigger] kept@[j]).id@,
                reap_spec(entries_map(orig), now) == reap_spec(
                    entries_map(self.entries@),
                    now,
                ).union_prefer_right(entries_map(kept@)),
            decreases self.entries@.len(),
        {
            let ghost s = self.entries@;
            let ghost k0 = kept@;
            let e = self.entries.pop().unwrap();
            let ghost t = self.entries@;
            proof {
                assert(t =~= s.drop_last());
                assert(forall|i: int| 0 <= i < t.len() ==> t[i] == s[i]);
                lemma_entries_map_contains(t, e.id@);
                if has_id(t, e.id@) {
                    let i = choose|i: int| 0 <= i < t.len() && #[trigger] t[i].id@ == e.id@;
                    assert(s[i] == t[i]);
                }
                lemma_entries_map_contains(k0, e.id@);
                if has_id(k0, e.id@) {
                    let j = choose|j: int| 0 <= j < k0.len() && #[trigger] k0[j].id@ == e.id@;
                    assert(s[s.len() - 1] == e);
                }
            }
            if expired(&e.paste, now) {
                proof {
                    assert(reap_spec(entries_map(s), now) =~= reap_spec(entries_map(t), now));
                }
            } else {
                kept.push(e);
                proof {
                    let k1 = kept@;
                    assert(k1.drop_last() =~= k0);
                    assert(reap_spec(entries_map(s), now) =~= reap_spec(
                        entries_map(t),
                        now,
                    ).insert(e.id@, e.paste@));
                    assert(reap_spec(entries_map(orig), now) =~= reap_spec(
                        entries_map(t),
                        now,
                    ).union_prefer_right(entries_map(k1)));
                    assert forall|i: int, j: int|
                        0 <= i < k1.len() && 0 <= j < k1.len() && i != j implies k1[i].id@
                        != k1[j].id@ by {
                        if i < k0.len() && j < k0.len() {
                            assert(k1[i] == k0[i] && k1[j] == k0[j]);
                        } else if i < k0.len() {
                            assert(k1[i] == k0[i]);
                        } else {
                            assert(k1[j] == k0[j]);
                        }
                    }
                    assert forall|i: int| 0 <= i < k1.len() implies acceptance_error(
                        (#[trigger] k1[i]).paste.ciphertext@.len(),
                        k1[i].paste.nonce@.len(),
                    ) is None by {
                        if i < k0.len() {
                            assert(k1[i] == k0[i]);
                        } else {
                            assert(s[s.len() - 1] == e);
                        }
                    }
                    assert forall|i: int, j: int|
                        0 <= i < t.len() && 0 <= j < k1.len() implies (#[trigger] t[i]).id@
                        != (#[trigger] k1[j]).id@ by {
                        assert(t[i] == s[i]);
                        if j < k0.len() {
                            assert(k1[j] == k0[j]);
                        } else {
                            assert(s[s.len() - 1] == e);
                        }
                    }
                }
            }
        }
        proof {
            assert(reap_spec(entries_map(self.entries@), now).union_prefer_right(
                entries_map(kept@),
            ) =~= entries_map(kept@));
            lemma_entries_map_len(kept@);
        }
        let removed = total - kept.len();
        self.entries = kept;
        removed
    }
}

} // verus!
