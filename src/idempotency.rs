//! The idempotency ledger: at most one execution per (user, key), and a
//! verbatim replay of the saved response for every later submission.
use vstd::prelude::*;
use crate::response::{ResponseView, SavedResponse};

verus! {

/// Keys must be shorter than this many characters.
pub const MAX_KEY_LEN: usize = 50;

/// A character that may stand in a key: no control character.
pub open spec fn is_printable(c: char) -> bool {
    !((c as u32) < 0x20 || (0x7f <= (c as u32) && (c as u32) < 0xa0))
}

/// Why a caller-supplied key was refused.
#[derive(Debug, Clone, Copy, PartialEq, Eq, Structural)]
pub enum KeyError {
    Empty,
    TooLong,
    NotPrintable,
}

/// The first rule that `s` breaks, if any: empty, then too long, then a
/// control character.
pub open spec fn key_error(s: Seq<char>) -> Option<KeyError> {
    if s.len() == 0 {
        Some(KeyError::Empty)
    } else if s.len() >= MAX_KEY_LEN {
        Some(KeyError::TooLong)
    } else if exists|i: int| 0 <= i < s.len() && !is_printable(#[trigger] s[i]) {
        Some(KeyError::NotPrintable)
    } else {
        None
    }
}

/// A caller-chosen token naming one logical submission.
#[derive(Debug)]
pub struct IdempotencyKey {
    key: String,
}

impl View for IdempotencyKey {
    type V = Seq<char>;

    closed spec fn view(&self) -> Seq<char> {
        self.key@
    }
}

fn printable_char(c: char) -> (r: bool)
    ensures
        r == is_printable(c),
{
    let u = c as u32;
    !(u < 0x20 || (0x7f <= u && u < 0xa0))
}

impl IdempotencyKey {
    /// Accepts `s` when it is non-empty, shorter than `MAX_KEY_LEN`
    /// characters and free of control characters.
    pub fn parse(s: String) -> (r: Result<IdempotencyKey, KeyError>)
        ensures
            match key_error(s@) {
                None => r matches Ok(k) && k@ == s@,
                Some(e) => r == Err::<IdempotencyKey, KeyError>(e),
            },
    {
        let n = s.as_str().unicode_len();
        if n == 0 {
            return Err(KeyError::Empty);
        }
        if n >= MAX_KEY_LEN {
            return Err(KeyError::TooLong);
        }
        let mut i: usize = 0;
        while i < n
            invariant
                n == s@.len(),
                0 < n < MAX_KEY_LEN,
                i <= n,
                forall|j: int| 0 <= j < i ==> is_printable(#[trigger] s@[j]),
            decreases n - i,
        {
            let c = s.as_str().get_char(i);
            if !printable_char(c) {
                assert(!is_printable(s@[i as int]));
                return Err(KeyError::NotPrintable);
            }
            i = i + 1;
        }
        Ok(IdempotencyKey { key: s })
    }

    /// The key as text.
    pub fn as_str(&self) -> (r: &str)
        ensures
            r@ == self@,
    {
        self.key.as_str()
    }
}

/// One row of the ledger; `response` is `None` while the guarded work is
/// still in flight.
#[derive(Debug)]
pub struct LedgerEntry {
    pub user_id: u128,
    pub key: String,
    pub response: Option<SavedResponse>,
    pub created_at: u64,
}

pub struct EntryView {
    pub user_id: u128,
    pub key: Seq<char>,
    pub response: Option<ResponseView>,
    pub created_at: u64,
}

impl View for LedgerEntry {
    type V = EntryView;

    open spec fn view(&self) -> EntryView {
        EntryView {
            user_id: self.user_id,
            key: self.key@,
            response: match self.response {
                Some(r) => Some(r@),
                None => None,
            },
            created_at: self.created_at,
        }
    }
}

/// What the ledger holds for one (user, key).
pub enum KeyState {
    Absent,
    InFlight,
    Saved(ResponseView),
}

/// The caller's next step after consulting the ledger.
#[derive(Debug)]
pub enum NextAction {
    /// The key was reserved for this caller, who must do the work and then
    /// save its response.
    StartProcessing,
    /// An earlier submission completed: replay its response verbatim.
    ReturnSaved(SavedResponse),
}

/// Why the ledger refused a step.
#[derive(Debug, Clone, Copy, PartialEq, Eq, Structural)]
pub enum LedgerError {
    /// Another submission holds the key and has not finished: wait for it,
    /// then ask again.
    InFlight,
    /// No reservation in flight for this (user, key).
    NotReserved,
}

pub open spec fn is_entry_for(e: EntryView, user_id: u128, key: Seq<char>) -> bool {
    e.user_id == user_id && e.key == key
}

pub open spec fn has_entry(s: Seq<EntryView>, user_id: u128, key: Seq<char>) -> bool {
    exists|i: int| 0 <= i < s.len() && is_entry_for(#[trigger] s[i], user_id, key)
}

/// The position of the row for (user, key); meaningful when `has_entry`.
pub open spec fn entry_index(s: Seq<EntryView>, user_id: u128, key: Seq<char>) -> int {
    choose|i: int| 0 <= i < s.len() && is_entry_for(#[trigger] s[i], user_id, key)
}

pub open spec fn key_state(s: Seq<EntryView>, user_id: u128, key: Seq<char>) -> KeyState {
    if has_entry(s, user_id, key) {
        match s[entry_index(s, user_id, key)].response {
            None => KeyState::InFlight,
            Some(v) => KeyState::Saved(v),
        }
    } else {
        KeyState::Absent
    }
}

/// The row for a reservation once its response is saved.
pub open spec fn saved_entry(e: EntryView, response: ResponseView) -> EntryView {
    EntryView { response: Some(response), ..e }
}

/// The placeholder row that reserves a key.
pub open spec fn placeholder(user_id: u128, key: Seq<char>, now: u64) -> EntryView {
    EntryView { user_id, key, response: None, created_at: now }
}

/// At most one row per (user, key).
pub open spec fn unique_keys(s: Seq<EntryView>) -> bool {
    forall|i: int, j: int|
        0 <= i < s.len() && 0 <= j < s.len() && #[trigger] s[i].user_id == #[trigger] s[j].user_id
            && s[i].key == s[j].key ==> i == j
}

/// Rows in order of reservation.
pub struct IdempotencyLedger {
    entries: Vec<LedgerEntry>,
}

impl View for IdempotencyLedger {
    type V = Seq<EntryView>;

    closed spec fn view(&self) -> Seq<EntryView> {
        self.entries@.map_values(|e: LedgerEntry| e@)
    }
}

/// In a ledger without duplicate rows, the row found for a key is the one
/// at `i`.
pub proof fn lemma_entry_at(s: Seq<EntryView>, user_id: u128, key: Seq<char>, i: int)
    requires
        unique_keys(s),
        0 <= i < s.len(),
        is_entry_for(s[i], user_id, key),
    ensures
        has_entry(s, user_id, key),
        entry_index(s, user_id, key) == i,
{
    assert(has_entry(s, user_id, key));
    let k = entry_index(s, user_id, key);
    assert(s[k].user_id == s[i].user_id);
}

impl IdempotencyLedger {
    pub open spec fn wf(&self) -> bool {
        unique_keys(self@)
    }

    /// An empty ledger.
    pub fn new() -> (r: IdempotencyLedger)
        ensures
            r.wf(),
            r@ == Seq::<EntryView>::empty(),
    {
        let r = IdempotencyLedger { entries: Vec::new() };
        assert(r@ =~= Seq::<EntryView>::empty());
        r
    }

    fn position(&self, user_id: u128, key: &String) -> (r: Option<usize>)
        requires
            self.wf(),
        ensures
            match r {
                Some(i) => i < self@.len() && is_entry_for(self@[i as int], user_id, key@)
                    && entry_index(self@, user_id, key@) == i,
                None => !has_entry(self@, user_id, key@),
            },
    {
        let mut i: usize = 0;
        while i < self.entries.len()
            invariant
                self.wf(),
                i <= self@.len(),
                self@.len() == self.entries@.len(),
                forall|j: int| 0 <= j < i ==> !is_entry_for(#[trigger] self@[j], user_id, key@),
            decreases self.entries@.len() - i,
        {
            let e = &self.entries[i];
            assert(self@[i as int] == e@);
            if e.user_id == user_id && e.key == *key {
                proof {
                    lemma_entry_at(self@, user_id, key@, i as int);
                }
                return Some(i);
            }
            i = i + 1;
        }
        None
    }

    /// The state of (user, key).
    pub fn state_of(&self, user_id: u128, key: &IdempotencyKey) -> (r: Option<Option<&SavedResponse>>)
        requires
            self.wf(),
        ensures
            match key_state(self@, user_id, key@) {
                KeyState::Absent => r is None,
                KeyState::InFlight => r == Some(None::<&SavedResponse>),
                KeyState::Saved(v) => r matches Some(Some(resp)) && resp@ == v,
            },
    {
        match self.position(user_id, &key.key) {
            None => None,
            Some(i) => match &self.entries[i].response {
                None => Some(None),
                Some(resp) => Some(Some(resp)),
            },
        }
    }

    /// Reserves (user, key) when it is free; replays the saved response when
    /// an earlier submission completed; refuses while one is in flight.
    pub fn begin_or_replay(&mut self, user_id: u128, key: &IdempotencyKey, now: u64) -> (r: Result<NextAction, LedgerError>)
        requires
            old(self).wf(),
        ensures
            final(self).wf(),
            match key_state(old(self)@, user_id, key@) {
                KeyState::Absent => r matches Ok(NextAction::StartProcessing)
                    && final(self)@ == old(self)@.push(placeholder(user_id, key@, now)),
                KeyState::InFlight => r == Err::<NextAction, LedgerError>(LedgerError::InFlight)
                    && final(self)@ == old(self)@,
                KeyState::Saved(v) => r matches Ok(NextAction::ReturnSaved(resp)) && resp@ == v
                    && final(self)@ == old(self)@,
            },
    {
        match self.position(user_id, &key.key) {
            Some(i) => match &self.entries[i].response {
                None => Err(LedgerError::InFlight),
                Some(resp) => Ok(NextAction::ReturnSaved(resp.duplicate())),
            },
            None => {
                let entry = LedgerEntry {
                    user_id,
                    key: key.key.clone(),
                    response: None,
                    created_at: now,
                };
                self.entries.push(entry);
                assert(self@ =~= old(self)@.push(placeholder(user_id, key@, now)));
                Ok(NextAction::StartProcessing)
            },
        }
    }
    /// Stores the final response for a reservation in flight; a saved
    /// response is never overwritten.
    pub fn save_response(&mut self, user_id: u128, key: &IdempotencyKey, response: SavedResponse) -> (r: Result<(), LedgerError>)
        requires
            old(self).wf(),
        ensures
            final(self).wf(),
            match key_state(old(self)@, user_id, key@) {
                KeyState::InFlight => r is Ok && final(self)@ == old(self)@.update(
                    entry_index(old(self)@, user_id, key@),
                    saved_entry(old(self)@[entry_index(old(self)@, user_id, key@)], response@),
                ),
                _ => r == Err::<(), LedgerError>(LedgerError::NotReserved) && final(self)@ == old(self)@,
            },
    {
        match self.position(user_id, &key.key) {
            None => Err(LedgerError::NotReserved),
            Some(i) => {
                if self.entries[i].response.is_some() {
                    return Err(LedgerError::NotReserved);
                }
                let ghost idx = i as int;
                let ghost resp_view = response@;
                self.entries[i].response = Some(response);
                assert(self@ =~= old(self)@.update(idx, saved_entry(old(self)@[idx], resp_view)));
                assert forall|a: int, b: int|
                    0 <= a < self@.len() && 0 <= b < self@.len() && #[trigger] self@[a].user_id
                        == #[trigger] self@[b].user_id && self@[a].key == self@[b].key implies a == b by {
                    assert(old(self)@[a].user_id == self@[a].user_id && old(self)@[a].key == self@[a].key);
                    assert(old(self)@[b].user_id == self@[b].user_id && old(self)@[b].key == self@[b].key);
                }
                Ok(())
            },
        }
    }

    /// Rolls back a reservation in flight, so that the key can be tried
    /// afresh.
    pub fn release(&mut self, user_id: u128, key: &IdempotencyKey) -> (r: Result<(), LedgerError>)
        requires
            old(self).wf(),
        ensures
            final(self).wf(),
            match key_state(old(self)@, user_id, key@) {
                KeyState::InFlight => r is Ok && final(self)@ == old(self)@.remove(
                    entry_index(old(self)@, user_id, key@),
                ),
                _ => r == Err::<(), LedgerError>(LedgerError::NotReserved) && final(self)@ == old(self)@,
            },
    {
        match self.position(user_id, &key.key) {
            None => Err(LedgerError::NotReserved),
            Some(i) => {
                if self.entries[i].response.is_some() {
                    return Err(LedgerError::NotReserved);
                }
                let ghost idx = i as int;
                self.entries.remove(i);
                assert(self@ =~= old(self)@.remove(idx));
                assert forall|a: int, b: int|
                    0 <= a < self@.len() && 0 <= b < self@.len() && #[trigger] self@[a].user_id
                        == #[trigger] self@[b].user_id && self@[a].key == self@[b].key implies a == b by {
                    let oa = if a < idx { a } else { a + 1 };
                    let ob = if b < idx { b } else { b + 1 };
                    assert(old(self)@[oa] == self@[a]);
                    assert(old(self)@[ob] == self@[b]);
                }
                Ok(())
            },
        }
    }
}

} // verus!
