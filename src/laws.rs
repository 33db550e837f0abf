use vstd::prelude::*;

use crate::store::{
    accept_spec, acceptance_error, age, fetch_spec, is_expired, is_valid_id, new_record, reap_spec,
    AcceptError, FetchError, PasteView, StoreMap, CLEANUP_INTERVAL_MILLIS, EXPIRY_MILLIS,
};

verus! {

/// One acceptance request: identifier, ciphertext, nonce and clock reading.
pub type Request = (Seq<char>, Seq<u8>, Seq<u8>, u64);

/// The store after accepting `reqs` in order, and the outcome of each.
pub open spec fn accept_all(m: StoreMap, reqs: Seq<Request>) -> (
    StoreMap,
    Seq<Result<Seq<char>, AcceptError>>,
)
    decreases reqs.len(),
{
    if reqs.len() == 0 {
        (m, Seq::empty())
    } else {
        let (before, outcomes) = accept_all(m, reqs.drop_last());
        let (id, ciphertext, nonce, now) = reqs.last();
        let (after, outcome) = accept_spec(before, id, ciphertext, nonce, now);
        (after, outcomes.push(outcome))
    }
}

/// A payload of acceptable sizes, stored under an identifier that is not taken,
/// is accepted, and a lookup of that identifier returns the same bytes.
pub proof fn lemma_accept_then_fetch(
    m: StoreMap,
    id: Seq<char>,
    ciphertext: Seq<u8>,
    nonce: Seq<u8>,
    now: u64,
)
    requires
        acceptance_error(ciphertext.len(), nonce.len()) is None,
        !m.contains_key(id),
        is_valid_id(id),
    ensures
        accept_spec(m, id, ciphertext, nonce, now).1 == Ok::<Seq<char>, AcceptError>(id),
        fetch_spec(accept_spec(m, id, ciphertext, nonce, now).0, id) == Ok::<
            PasteView,
            FetchError,
        >(new_record(ciphertext, nonce, now)),
{
}

/// A nonce of any length but the accepted one is refused as such, and the store is unchanged.
pub proof fn lemma_bad_nonce_refused(
    m: StoreMap,
    id: Seq<char>,
    ciphertext: Seq<u8>,
    nonce: Seq<u8>,
    now: u64,
)
    requires
        nonce.len() != crate::store::NONCE_LENGTH,
    ensures
        accept_spec(m, id, ciphertext, nonce, now) == (m, Err::<Seq<char>, AcceptError>(
            AcceptError::InvalidNonce,
        )),
{
}

/// An empty ciphertext, or ciphertext and nonce over the size limit, with a nonce of the
/// accepted length, is refused as an invalid payload, and the store is unchanged.
pub proof fn lemma_bad_payload_refused(
    m: StoreMap,
    id: Seq<char>,
    ciphertext: Seq<u8>,
    nonce: Seq<u8>,
    now: u64,
)
    requires
        nonce.len() == crate::store::NONCE_LENGTH,
        ciphertext.len() == 0 || ciphertext.len() + nonce.len()
            > crate::store::MAX_ENCRYPTED_SIZE,
    ensures
        accept_spec(m, id, ciphertext, nonce, now) == (m, Err::<Seq<char>, AcceptError>(
            AcceptError::InvalidPayload,
        )),
{
}

/// A valid identifier under which nothing is stored is not found.
pub proof fn lemma_absent_id_not_found(m: StoreMap, id: Seq<char>)
    requires
        is_valid_id(id),
        !m.contains_key(id),
    ensures
        fetch_spec(m, id) == Err::<PasteView, FetchError>(FetchError::NotFound),
{
}

/// An empty identifier, or one longer than the limit, is refused whatever the store holds.
pub proof fn lemma_malformed_id_refused(m: StoreMap, id: Seq<char>)
    requires
        id.len() == 0 || id.len() > crate::store::MAX_ID_LENGTH,
    ensures
        fetch_spec(m, id) == Err::<PasteView, FetchError>(FetchError::InvalidId),
{
}

/// Reaping twice at the same time removes nothing the second time.
pub proof fn lemma_reap_idempotent(m: StoreMap, now: u64)
    ensures
        reap_spec(reap_spec(m, now), now) == reap_spec(m, now),
        reap_spec(m, now).len() - reap_spec(reap_spec(m, now), now).len() == 0,
{
    assert(reap_spec(reap_spec(m, now), now) =~= reap_spec(m, now));
}

/// After reaping at `now` no record is expired at `now`, every record that is not
/// expired stays, and so does every record admitted at `now` or later.
pub proof fn lemma_reap_keeps_fresh(m: StoreMap, now: u64)
    ensures
        forall|k: Seq<char>| #[trigger]
            reap_spec(m, now).contains_key(k) ==> m.contains_key(k) && reap_spec(m, now)[k] == m[k]
                && !is_expired(m[k], now),
        forall|k: Seq<char>|
            #[trigger] m.contains_key(k) && !is_expired(m[k], now) ==> reap_spec(
                m,
                now,
            ).contains_key(k),
        forall|k: Seq<char>|
            #[trigger] m.contains_key(k) && m[k].created_at >= now ==> reap_spec(
                m,
                now,
            ).contains_key(k),
{
}

/// Until one cleanup interval after a sweep at `swept`, no record that the sweep left
/// is older than the retention window plus that interval.
pub proof fn lemma_staleness_bound(m: StoreMap, swept: u64, now: u64)
    requires
        swept <= now,
        now <= swept + CLEANUP_INTERVAL_MILLIS,
    ensures
        forall|k: Seq<char>| #[trigger]
            reap_spec(m, swept).contains_key(k) ==> age(reap_spec(m, swept)[k].created_at, now)
                <= EXPIRY_MILLIS + CLEANUP_INTERVAL_MILLIS,
{
}

/// A record accepted at `t` is gone after a reap at any time past `t` plus the
/// retention window.
pub proof fn lemma_expired_record_gone(
    m: StoreMap,
    id: Seq<char>,
    ciphertext: Seq<u8>,
    nonce: Seq<u8>,
    t: u64,
    now: u64,
)
    requires
        accept_spec(m, id, ciphertext, nonce, t).1 is Ok,
        now > t + EXPIRY_MILLIS,
    ensures
        !reap_spec(accept_spec(m, id, ciphertext, nonce, t).0, now).contains_key(id),
        is_valid_id(id) ==> fetch_spec(reap_spec(accept_spec(m, id, ciphertext, nonce, t).0, now), id)
            == Err::<PasteView, FetchError>(FetchError::NotFound),
{
}

/// Over any run of acceptances: each success returns its own identifier, successes
/// have pairwise distinct identifiers, and every accepted record stays retrievable.
/// Requests of acceptable sizes whose identifiers are pairwise distinct and not taken
/// beforehand all succeed.
pub proof fn lemma_accept_all(m: StoreMap, reqs: Seq<Request>)
    ensures
        ({
            let (after, outcomes) = accept_all(m, reqs);
            &&& outcomes.len() == reqs.len()
            &&& forall|i: int|
                0 <= i < reqs.len() && (#[trigger] outcomes[i]) is Ok ==> {
                    &&& outcomes[i] == Ok::<Seq<char>, AcceptError>(reqs[i].0)
                    &&& after.contains_key(reqs[i].0)
                    &&& after[reqs[i].0] == new_record(reqs[i].1, reqs[i].2, reqs[i].3)
                    &&& is_valid_id(reqs[i].0) ==> fetch_spec(after, reqs[i].0) == Ok::<
                        PasteView,
                        FetchError,
                    >(new_record(reqs[i].1, reqs[i].2, reqs[i].3))
                }
            &&& forall|i: int, j: int|
                0 <= i < reqs.len() && 0 <= j < reqs.len() && i != j && (#[trigger] outcomes[i]) is Ok
                    && (#[trigger] outcomes[j]) is Ok ==> reqs[i].0 != reqs[j].0
            &&& forall|k: Seq<char>| #[trigger]
                after.contains_key(k) ==> m.contains_key(k) || exists|i: int|
                    0 <= i < reqs.len() && (#[trigger] reqs[i]).0 == k
            &&& ({
                &&& forall|i: int|
                    0 <= i < reqs.len() ==> acceptance_error(
                        (#[trigger] reqs[i]).1.len(),
                        reqs[i].2.len(),
                    ) is None && !m.contains_key(reqs[i].0)
                &&& forall|i: int, j: int|
                    0 <= i < reqs.len() && 0 <= j < reqs.len() && i != j ==> (#[trigger] reqs[i]).0
                        != (#[trigger] reqs[j]).0
            }) ==> forall|i: int| 0 <= i < reqs.len() ==> (#[trigger] outcomes[i]) is Ok
        }),
    decreases reqs.len(),
{
    if reqs.len() > 0 {
        let prev = reqs.drop_last();
        lemma_accept_all(m, prev);
        let (before, outs) = accept_all(m, prev);
        let n = reqs.len() - 1;
        assert(forall|i: int| 0 <= i < n ==> prev[i] == reqs[i]);
        let (after, outcomes) = accept_all(m, reqs);
        assert(forall|i: int| 0 <= i < n ==> outcomes[i] == outs[i]);
        let (id, ciphertext, nonce, now) = reqs[n];
        assert forall|k: Seq<char>| #[trigger] after.contains_key(k) implies m.contains_key(k)
            || exists|i: int| 0 <= i < reqs.len() && (#[trigger] reqs[i]).0 == k by {
            if k != id {
                assert(before.contains_key(k));
                if !m.contains_key(k) {
                    let i = choose|i: int| 0 <= i < prev.len() && (#[trigger] prev[i]).0 == k;
                    assert(reqs[i] == prev[i]);
                }
            } else {
                assert(reqs[n].0 == k);
            }
        }
        if forall|i: int|
            0 <= i < reqs.len() ==> acceptance_error(
                (#[trigger] reqs[i]).1.len(),
                reqs[i].2.len(),
            ) is None && !m.contains_key(reqs[i].0) {
            if forall|i: int, j: int|
                0 <= i < reqs.len() && 0 <= j < reqs.len() && i != j ==> (#[trigger] reqs[i]).0
                    != (#[trigger] reqs[j]).0 {
                assert(forall|i: int| 0 <= i < prev.len() ==> #[trigger] prev[i] == reqs[i]);
                if before.contains_key(id) {
                    let i = choose|i: int| 0 <= i < prev.len() && (#[trigger] prev[i]).0 == id;
                    assert(reqs[i] == prev[i]);
                }
            }
        }
    }
}

} // verus!
