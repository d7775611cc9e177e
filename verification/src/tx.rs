//! The transaction manager: a keyed mapping from caller-chosen
//! transaction ids to live transaction handles, enforcing the
//! begin/commit/rollback lifecycle.
//!
//! At most one live entry exists per id. An operation already in flight
//! on an id marks it busy, and a second concurrent use is refused with
//! `TxError::Busy`. A timeout firing removes the entry and leaves a
//! tombstone: later operations on that id fail with `TxError::TimedOut`
//! until a fresh `begin` clears it. The empty id is reserved for
//! "no transaction" and is refused at the facade, never stored here.
use vstd::prelude::*;

verus! {

/// Why a transaction operation failed.
#[derive(Debug, Clone, Copy, PartialEq, Eq, Structural)]
pub enum TxError {
    AlreadyBegun,
    NotFound,
    Busy,
    TimedOut,
    Driver,
}

/// The state of a live transaction entry.
#[derive(Debug, Clone, Copy, PartialEq, Eq, Structural)]
pub enum TxState {
    Active,
    Busy,
}

/// What an id maps to: the most recently installed entry wins.
pub open spec fn tx_find(entries: Seq<(String, TxState)>, id: Seq<char>) -> Option<TxState>
    decreases entries.len(),
{
    if entries.len() == 0 {
        None
    } else if entries.last().0@ == id {
        Some(entries.last().1)
    } else {
        tx_find(entries.drop_last(), id)
    }
}

/// Every entry under the id removed, order otherwise kept.
pub open spec fn remove_entry(entries: Seq<(String, TxState)>, id: Seq<char>) -> Seq<
    (String, TxState),
>
    decreases entries.len(),
{
    if entries.len() == 0 {
        entries
    } else if entries.last().0@ == id {
        remove_entry(entries.drop_last(), id)
    } else {
        remove_entry(entries.drop_last(), id).push(entries.last())
    }
}

/// Whether a name list holds a name.
pub open spec fn has_name(names: Seq<String>, n: Seq<char>) -> bool {
    exists|i: int| 0 <= i < names.len() && names[i]@ == n
}

/// Every occurrence of the name removed.
pub open spec fn remove_name(names: Seq<String>, n: Seq<char>) -> Seq<String>
    decreases names.len(),
{
    if names.len() == 0 {
        names
    } else if names.last()@ == n {
        remove_name(names.drop_last(), n)
    } else {
        remove_name(names.drop_last(), n).push(names.last())
    }
}

/// Removal answers lookups: the removed id is gone, every other id
/// unchanged.
pub proof fn lemma_remove_entry_find(entries: Seq<(String, TxState)>, id: Seq<char>, n: Seq<char>)
    ensures
        tx_find(remove_entry(entries, id), n) == if n == id {
            None::<TxState>
        } else {
            tx_find(entries, n)
        },
    decreases entries.len(),
{
    if entries.len() > 0 {
        lemma_remove_entry_find(entries.drop_last(), id, n);
        if entries.last().0@ != id {
            assert(remove_entry(entries, id).last() == entries.last());
            assert(remove_entry(entries, id).drop_last() =~= remove_entry(
                entries.drop_last(),
                id,
            ));
        }
    }
}

/// Name removal answers membership likewise.
pub proof fn lemma_remove_name_has(names: Seq<String>, n: Seq<char>, m: Seq<char>)
    ensures
        has_name(remove_name(names, n), m) == if m == n {
            false
        } else {
            has_name(names, m)
        },
    decreases names.len(),
{
    if names.len() == 0 {
        assert(!has_name(names, m));
        assert(!has_name(remove_name(names, n), m));
    } else {
        lemma_remove_name_has(names.drop_last(), n, m);
        let rest = names.drop_last();
        assert(has_name(names, m) == (names.last()@ == m || has_name(rest, m))) by {
            if has_name(names, m) {
                let i = choose|i: int| 0 <= i < names.len() && names[i]@ == m;
                if i < names.len() - 1 {
                    assert(rest[i]@ == m);
                }
            }
            if has_name(rest, m) {
                let i = choose|i: int| 0 <= i < rest.len() && rest[i]@ == m;
                assert(names[i]@ == m);
            }
        }
        if names.last()@ != n {
            let r = remove_name(names, n);
            assert(r.last() == names.last());
            assert(r.drop_last() =~= remove_name(rest, n));
            assert(has_name(r, m) == (r.last()@ == m || has_name(r.drop_last(), m))) by {
                if has_name(r, m) {
                    let i = choose|i: int| 0 <= i < r.len() && r[i]@ == m;
                    if i < r.len() - 1 {
                        assert(r.drop_last()[i]@ == m);
                    }
                }
                if has_name(r.drop_last(), m) {
                    let i = choose|i: int| 0 <= i < r.drop_last().len() && r.drop_last()[i]@ == m;
                    assert(r[i]@ == m);
                }
            }
        }
    }
}

/// A push answers lookups: the pushed id maps to the new state, every
/// other id as before.
pub proof fn lemma_push_find(
    entries: Seq<(String, TxState)>,
    e: (String, TxState),
    n: Seq<char>,
)
    ensures
        tx_find(entries.push(e), n) == if n == e.0@ {
            Some(e.1)
        } else {
            tx_find(entries, n)
        },
{
    assert(entries.push(e).drop_last() =~= entries);
    assert(entries.push(e).last() == e);
}

/// The manager's whole state: live entries plus timed-out tombstones.
#[derive(Debug)]
pub struct TxManager {
    pub entries: Vec<(String, TxState)>,
    pub timed_out: Vec<String>,
}

/// What `begin` does: a tombstone for the id is cleared; an id already
/// holding an entry is refused; otherwise an Active entry is installed.
pub open spec fn begin_model(
    entries: Seq<(String, TxState)>,
    tombs: Seq<String>,
    id: Seq<char>,
    id_s: String,
) -> (Seq<(String, TxState)>, Seq<String>, Result<(), TxError>) {
    let tombs2 = remove_name(tombs, id);
    if tx_find(entries, id) is Some {
        (entries, tombs, Err(TxError::AlreadyBegun))
    } else {
        (entries.push((id_s, TxState::Active)), tombs2, Ok(()))
    }
}

/// What `commit` and `rollback` do: a tombstoned id fails `TimedOut`, a
/// missing one `NotFound`, a busy one `Busy`; an Active entry is
/// removed.
pub open spec fn finish_model(
    entries: Seq<(String, TxState)>,
    tombs: Seq<String>,
    id: Seq<char>,
) -> (Seq<(String, TxState)>, Seq<String>, Result<(), TxError>) {
    if has_name(tombs, id) {
        (entries, tombs, Err(TxError::TimedOut))
    } else {
        match tx_find(entries, id) {
            None => (entries, tombs, Err(TxError::NotFound)),
            Some(TxState::Busy) => (entries, tombs, Err(TxError::Busy)),
            Some(TxState::Active) => (remove_entry(entries, id), tombs, Ok(())),
        }
    }
}

/// What `checkout` does: an Active entry turns Busy for the caller's
/// exclusive use; a busy one is refused.
pub open spec fn checkout_model(
    entries: Seq<(String, TxState)>,
    tombs: Seq<String>,
    id: Seq<char>,
    id_s: String,
) -> (Seq<(String, TxState)>, Seq<String>, Result<(), TxError>) {
    if has_name(tombs, id) {
        (entries, tombs, Err(TxError::TimedOut))
    } else {
        match tx_find(entries, id) {
            None => (entries, tombs, Err(TxError::NotFound)),
            Some(TxState::Busy) => (entries, tombs, Err(TxError::Busy)),
            Some(TxState::Active) => (
                remove_entry(entries, id).push((id_s, TxState::Busy)),
                tombs,
                Ok(()),
            ),
        }
    }
}

/// What `checkin` does: a Busy entry turns Active again.
pub open spec fn checkin_model(
    entries: Seq<(String, TxState)>,
    tombs: Seq<String>,
    id: Seq<char>,
    id_s: String,
) -> (Seq<(String, TxState)>, Seq<String>, Result<(), TxError>) {
    if has_name(tombs, id) {
        (entries, tombs, Err(TxError::TimedOut))
    } else {
        match tx_find(entries, id) {
            None => (entries, tombs, Err(TxError::NotFound)),
            Some(TxState::Active) => (entries, tombs, Ok(())),
            Some(TxState::Busy) => (
                remove_entry(entries, id).push((id_s, TxState::Active)),
                tombs,
                Ok(()),
            ),
        }
    }
}

/// What a firing timeout does: the Active entry is removed and a
/// tombstone left, so later use of the id fails `TimedOut`.
pub open spec fn expire_model(
    entries: Seq<(String, TxState)>,
    tombs: Seq<String>,
    id: Seq<char>,
    id_s: String,
) -> (Seq<(String, TxState)>, Seq<String>, Result<(), TxError>) {
    if has_name(tombs, id) {
        (entries, tombs, Err(TxError::TimedOut))
    } else {
        match tx_find(entries, id) {
            None => (entries, tombs, Err(TxError::NotFound)),
            Some(TxState::Busy) => (entries, tombs, Err(TxError::Busy)),
            Some(TxState::Active) => (remove_entry(entries, id), tombs.push(id_s), Ok(())),
        }
    }
}

impl TxManager {
    /// A manager with no live transactions and no tombstones.
    pub fn new() -> (r: TxManager)
        ensures
            r.entries@.len() == 0,
            r.timed_out@.len() == 0,
    {
        TxManager { entries: Vec::new(), timed_out: Vec::new() }
    }

    /// The position of the last entry under the id, when one exists.
    #[verifier::loop_isolation(false)]
    fn find_at(&self, id: &str) -> (r: Option<usize>)
        ensures
            match r {
                Some(i) => i < self.entries@.len() && tx_find(self.entries@, id@) == Some(
                    self.entries@[i as int].1,
                ),
                None => tx_find(self.entries@, id@) is None,
            },
    {
        let mut i: usize = self.entries.len();
        proof {
            assert(self.entries@.take(self.entries@.len() as int) =~= self.entries@);
        }
        loop
            invariant
                i <= self.entries@.len(),
                tx_find(self.entries@.take(i as int), id@) == tx_find(self.entries@, id@),
            decreases i,
        {
            if i == 0 {
                proof {
                    assert(self.entries@.take(0) =~= Seq::<(String, TxState)>::empty());
                }
                return None;
            }
            i = i - 1;
            proof {
                assert(self.entries@.take(i as int + 1).drop_last() =~= self.entries@.take(
                    i as int,
                ));
                assert(self.entries@.take(i as int + 1).last() == self.entries@[i as int]);
            }
            if crate::text::str_eq(self.entries[i].0.as_str(), id) {
                return Some(i);
            }
        }
    }

    /// Removes every entry under the id, keeping the others in order.
    #[verifier::loop_isolation(false)]
    fn remove_all(&mut self, id: &str)
        ensures
            final(self).entries@ == remove_entry(old(self).entries@, id@),
            final(self).timed_out@ == old(self).timed_out@,
    {
        let mut kept: Vec<(String, TxState)> = Vec::new();
        let mut i: usize = 0;
        proof {
            assert(self.entries@.take(0) =~= Seq::<(String, TxState)>::empty());
        }
        while i < self.entries.len()
            invariant
                i <= self.entries@.len(),
                kept@ == remove_entry(self.entries@.take(i as int), id@),
            decreases self.entries@.len() - i,
        {
            proof {
                assert(self.entries@.take(i as int + 1).drop_last() =~= self.entries@.take(
                    i as int,
                ));
                assert(self.entries@.take(i as int + 1).last() == self.entries@[i as int]);
            }
            if !crate::text::str_eq(self.entries[i].0.as_str(), id) {
                kept.push((self.entries[i].0.clone(), self.entries[i].1));
            }
            i = i + 1;
        }
        proof {
            assert(self.entries@.take(self.entries@.len() as int) =~= self.entries@);
        }
        self.entries = kept;
    }

    /// Removes every tombstone under the name.
    #[verifier::loop_isolation(false)]
    fn remove_tomb(&mut self, id: &str)
        ensures
            final(self).timed_out@ == remove_name(old(self).timed_out@, id@),
            final(self).entries@ == old(self).entries@,
    {
        let mut kept: Vec<String> = Vec::new();
        let mut i: usize = 0;
        proof {
            assert(self.timed_out@.take(0) =~= Seq::<String>::empty());
        }
        while i < self.timed_out.len()
            invariant
                i <= self.timed_out@.len(),
                kept@ == remove_name(self.timed_out@.take(i as int), id@),
            decreases self.timed_out@.len() - i,
        {
            proof {
                assert(self.timed_out@.take(i as int + 1).drop_last() =~= self.timed_out@.take(
                    i as int,
                ));
                assert(self.timed_out@.take(i as int + 1).last() == self.timed_out@[i as int]);
            }
            if !crate::text::str_eq(self.timed_out[i].as_str(), id) {
                kept.push(self.timed_out[i].clone());
            }
            i = i + 1;
        }
        proof {
            assert(self.timed_out@.take(self.timed_out@.len() as int) =~= self.timed_out@);
        }
        self.timed_out = kept;
    }

    /// Whether a tombstone exists for the id.
    #[verifier::loop_isolation(false)]
    fn tombstoned(&self, id: &str) -> (r: bool)
        ensures
            r == has_name(self.timed_out@, id@),
    {
        let mut i: usize = 0;
        while i < self.timed_out.len()
            invariant
                i <= self.timed_out@.len(),
                forall|j: int| 0 <= j < i ==> self.timed_out@[j]@ != id@,
            decreases self.timed_out@.len() - i,
        {
            if crate::text::str_eq(self.timed_out[i].as_str(), id) {
                return true;
            }
            i = i + 1;
        }
        false
    }

    /// Begins a transaction under the id; an id already begun is refused
    /// with `AlreadyBegun` and nothing changes. A tombstone left by a
    /// timeout is cleared: the id starts a fresh lifecycle.
    pub fn begin(&mut self, id: String) -> (r: Result<(), TxError>)
        ensures
            (final(self).entries@, final(self).timed_out@, r) == begin_model(
                old(self).entries@,
                old(self).timed_out@,
                id@,
                id,
            ),
    {
        match self.find_at(id.as_str()) {
            Some(_) => Err(TxError::AlreadyBegun),
            None => {
                self.remove_tomb(id.as_str());
                self.entries.push((id, TxState::Active));
                Ok(())
            },
        }
    }

    /// Commits: the entry for the id is removed; a missing id fails
    /// `NotFound`, a timed-out one `TimedOut`, one in concurrent use
    /// `Busy`. The driver-side commit is the caller's to run once this
    /// returns `Ok`.
    pub fn commit(&mut self, id: &str) -> (r: Result<(), TxError>)
        ensures
            (final(self).entries@, final(self).timed_out@, r) == finish_model(
                old(self).entries@,
                old(self).timed_out@,
                id@,
            ),
            r is Ok ==> tx_find(final(self).entries@, id@) is None,
    {
        self.finish(id)
    }

    /// Rolls back: the entry for the id is removed, with the same error
    /// behaviour as `commit`.
    pub fn rollback(&mut self, id: &str) -> (r: Result<(), TxError>)
        ensures
            (final(self).entries@, final(self).timed_out@, r) == finish_model(
                old(self).entries@,
                old(self).timed_out@,
                id@,
            ),
            r is Ok ==> tx_find(final(self).entries@, id@) is None,
    {
        self.finish(id)
    }

    /// The shared commit/rollback transition.
    fn finish(&mut self, id: &str) -> (r: Result<(), TxError>)
        ensures
            (final(self).entries@, final(self).timed_out@, r) == finish_model(
                old(self).entries@,
                old(self).timed_out@,
                id@,
            ),
            r is Ok ==> tx_find(final(self).entries@, id@) is None,
    {
        if self.tombstoned(id) {
            return Err(TxError::TimedOut);
        }
        match self.find_at(id) {
            None => Err(TxError::NotFound),
            Some(i) => {
                if matches!(self.entries[i].1, TxState::Busy) {
                    Err(TxError::Busy)
                } else {
                    self.remove_all(id);
                    proof {
                        lemma_remove_entry_find(old(self).entries@, id@, id@);
                    }
                    Ok(())
                }
            },
        }
    }

    /// Marks the id's transaction busy for one in-flight operation; a
    /// second concurrent use of the same id is refused with `Busy`.
    pub fn checkout(&mut self, id: String) -> (r: Result<(), TxError>)
        ensures
            (final(self).entries@, final(self).timed_out@, r) == checkout_model(
                old(self).entries@,
                old(self).timed_out@,
                id@,
                id,
            ),
    {
        if self.tombstoned(id.as_str()) {
            return Err(TxError::TimedOut);
        }
        match self.find_at(id.as_str()) {
            None => Err(TxError::NotFound),
            Some(i) => {
                if matches!(self.entries[i].1, TxState::Busy) {
                    Err(TxError::Busy)
                } else {
                    self.remove_all(id.as_str());
                    self.entries.push((id, TxState::Busy));
                    Ok(())
                }
            },
        }
    }

    /// Returns the id's transaction to Active after an operation.
    pub fn checkin(&mut self, id: String) -> (r: Result<(), TxError>)
        ensures
            (final(self).entries@, final(self).timed_out@, r) == checkin_model(
                old(self).entries@,
                old(self).timed_out@,
                id@,
                id,
            ),
    {
        if self.tombstoned(id.as_str()) {
            return Err(TxError::TimedOut);
        }
        match self.find_at(id.as_str()) {
            None => Err(TxError::NotFound),
            Some(i) => {
                if matches!(self.entries[i].1, TxState::Busy) {
                    self.remove_all(id.as_str());
                    self.entries.push((id, TxState::Active));
                    Ok(())
                } else {
                    Ok(())
                }
            },
        }
    }

    /// A timeout firing on the id: the entry is removed and a tombstone
    /// left, so later operations on the id fail `TimedOut`. The
    /// driver-side rollback is the caller's to run once this returns
    /// `Ok`.
    pub fn expire(&mut self, id: String) -> (r: Result<(), TxError>)
        ensures
            (final(self).entries@, final(self).timed_out@, r) == expire_model(
                old(self).entries@,
                old(self).timed_out@,
                id@,
                id,
            ),
    {
        if self.tombstoned(id.as_str()) {
            return Err(TxError::TimedOut);
        }
        match self.find_at(id.as_str()) {
            None => Err(TxError::NotFound),
            Some(i) => {
                if matches!(self.entries[i].1, TxState::Busy) {
                    Err(TxError::Busy)
                } else {
                    self.remove_all(id.as_str());
                    self.timed_out.push(id);
                    Ok(())
                }
            },
        }
    }

    /// Whether the id names a live transaction, and in which state.
    pub fn state_of(&self, id: &str) -> (r: Option<TxState>)
        ensures
            r == tx_find(self.entries@, id@),
    {
        match self.find_at(id) {
            None => None,
            Some(i) => Some(self.entries[i].1),
        }
    }
}

/// `begin(id)` then `commit(id)` leaves the transaction map with no
/// entry for `id`, and every other id's entry exactly as it was; the
/// same holds of `rollback`, which shares `commit`'s transition.
pub proof fn lemma_begin_then_finish(
    entries: Seq<(String, TxState)>,
    tombs: Seq<String>,
    id: Seq<char>,
    id_s: String,
)
    requires
        id_s@ == id,
        begin_model(entries, tombs, id, id_s).2 is Ok,
    ensures
        ({
            let (e1, t1, _) = begin_model(entries, tombs, id, id_s);
            let (e2, t2, r2) = finish_model(e1, t1, id);
            r2 == Ok::<(), TxError>(()) && tx_find(e2, id) is None && (forall|n: Seq<char>|
                n != id ==> tx_find(e2, n) == tx_find(entries, n))
        }),
{
    let (e1, t1, _) = begin_model(entries, tombs, id, id_s);
    lemma_remove_name_has(tombs, id, id);
    lemma_push_find(entries, (id_s, TxState::Active), id);
    assert(tx_find(e1, id) == Some(TxState::Active));
    let (e2, t2, r2) = finish_model(e1, t1, id);
    lemma_remove_entry_find(e1, id, id);
    assert forall|n: Seq<char>| n != id implies tx_find(e2, n) == tx_find(entries, n) by {
        lemma_remove_entry_find(e1, id, n);
        lemma_push_find(entries, (id_s, TxState::Active), n);
    }
}

/// Two `begin` calls racing on one id: whichever lands first succeeds,
/// and the other is refused with `AlreadyBegun`. The manager applies
/// the two transitions in some order; this covers both.
pub proof fn lemma_begin_begin(
    entries: Seq<(String, TxState)>,
    tombs: Seq<String>,
    id: Seq<char>,
    id_s: String,
    id_s2: String,
)
    requires
        id_s@ == id,
        id_s2@ == id,
        tx_find(entries, id) is None,
    ensures
        ({
            let (e1, t1, r1) = begin_model(entries, tombs, id, id_s);
            r1 == Ok::<(), TxError>(()) && begin_model(e1, t1, id, id_s2).2 == Err::<
                (),
                TxError,
            >(TxError::AlreadyBegun)
        }),
{
    let (e1, t1, r1) = begin_model(entries, tombs, id, id_s);
    lemma_push_find(entries, (id_s, TxState::Active), id);
}

} // verus!
