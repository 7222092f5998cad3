use vstd::prelude::*;

verus! {

/// The supply recorded at initialization, globally and for the admin.
pub const TOTAL_SUPPLY: u64 = 1_000_000_000;

/// The message written at initialization.
pub const MEMORIAL_MESSAGE: &'static str = "OINIO: For the Beloved Keepers of the Northern Gateway. Not in vain.";

/// Why an entry point refused to act.
#[derive(Debug, Clone, Copy, PartialEq, Eq, Structural)]
pub enum BridgeError {
    /// The caller could not prove control of the declared admin address.
    Unauthorized,
}

/// What the contract's storage holds, as mathematical values.
pub ghost struct BridgeState {
    /// The memorial message, once written.
    pub message: Option<Seq<char>>,
    /// The global supply, once written.
    pub supply: Option<u64>,
    /// The most recently anchored letter reference.
    pub letter: Option<Seq<char>>,
    /// The supply records, keyed by admin address.
    pub holdings: Map<Seq<char>, u64>,
}

impl BridgeState {
    /// Storage before any entry point has run.
    pub open spec fn empty() -> BridgeState {
        BridgeState { message: None, supply: None, letter: None, holdings: Map::empty() }
    }

    /// Both the message and the supply have been written.
    pub open spec fn initialized(self) -> bool {
        self.message is Some && self.supply is Some
    }

    /// Storage after a successful initialization by `admin`.
    pub open spec fn after_initialize(self, admin: Seq<char>) -> BridgeState {
        BridgeState {
            message: Some(MEMORIAL_MESSAGE@),
            supply: Some(TOTAL_SUPPLY),
            holdings: self.holdings.insert(admin, TOTAL_SUPPLY),
            ..self
        }
    }

    /// Storage after `url` has been anchored.
    pub open spec fn after_anchor(self, url: Seq<char>) -> BridgeState {
        BridgeState { letter: Some(url), ..self }
    }
}

/// The supply records that a list of (address, amount) entries describes;
/// a later entry for an address stands over an earlier one.
pub open spec fn holdings_map(entries: Seq<(String, u64)>) -> Map<Seq<char>, u64>
    decreases entries.len(),
{
    if entries.len() == 0 {
        Map::empty()
    } else {
        let last = entries.last();
        holdings_map(entries.drop_last()).insert(last.0@, last.1)
    }
}

/// No address occurs twice among the entries.
pub open spec fn keys_unique(entries: Seq<(String, u64)>) -> bool {
    forall|i: int, j: int|
        0 <= i < entries.len() && 0 <= j < entries.len() && i != j ==> entries[i].0@ != entries[j].0@
}

/// With one entry per address, the entry at an index is the record of its
/// address.
proof fn lemma_holdings_index(entries: Seq<(String, u64)>, i: int)
    requires
        keys_unique(entries),
        0 <= i < entries.len(),
    ensures
        holdings_map(entries).contains_key(entries[i].0@),
        holdings_map(entries)[entries[i].0@] == entries[i].1,
    decreases entries.len(),
{
    if i < entries.len() - 1 {
        let init = entries.drop_last();
        assert forall|a: int, b: int|
            0 <= a < init.len() && 0 <= b < init.len() && a != b implies init[a].0@ != init[b].0@ by {
            assert(init[a] == entries[a] && init[b] == entries[b]);
        }
        lemma_holdings_index(init, i);
        assert(init[i] == entries[i]);
        assert(entries[i].0@ != entries[entries.len() - 1].0@);
    }
}

/// An address that no entry names has no record.
proof fn lemma_holdings_absent(entries: Seq<(String, u64)>, k: Seq<char>)
    requires
        forall|i: int| 0 <= i < entries.len() ==> entries[i].0@ != k,
    ensures
        !holdings_map(entries).contains_key(k),
    decreases entries.len(),
{
    if entries.len() > 0 {
        let init = entries.drop_last();
        assert forall|i: int| 0 <= i < init.len() implies init[i].0@ != k by {
            assert(init[i] == entries[i]);
        }
        lemma_holdings_absent(init, k);
    }
}

/// Changing the amount of one entry changes the record of its address alone.
proof fn lemma_holdings_update(entries: Seq<(String, u64)>, i: int, key: String, v: u64)
    requires
        keys_unique(entries),
        0 <= i < entries.len(),
        key@ == entries[i].0@,
    ensures
        holdings_map(entries.update(i, (key, v))) == holdings_map(entries).insert(key@, v),
    decreases entries.len(),
{
    let k = entries[i].0@;
    let updated = entries.update(i, (key, v));
    let init = entries.drop_last();
    let last = entries.last();
    if i == entries.len() - 1 {
        assert(updated.drop_last() =~= init);
        assert(holdings_map(updated) =~= holdings_map(entries).insert(k, v));
    } else {
        assert forall|a: int, b: int|
            0 <= a < init.len() && 0 <= b < init.len() && a != b implies init[a].0@ != init[b].0@ by {
            assert(init[a] == entries[a] && init[b] == entries[b]);
        }
        lemma_holdings_update(init, i, key, v);
        assert(updated.drop_last() =~= init.update(i, (key, v)));
        assert(updated.last() == last);
        assert(last.0@ != k);
        assert(holdings_map(updated) =~= holdings_map(entries).insert(k, v));
    }
}

/// The contract's storage.
pub struct OinioMemorialBridge {
    message: Option<String>,
    supply: Option<u64>,
    letter: Option<String>,
    holdings: Vec<(String, u64)>,
}

/// The characters of an optional string.
pub open spec fn opt_view(s: Option<String>) -> Option<Seq<char>> {
    match s {
        Some(v) => Some(v@),
        None => None,
    }
}

impl View for OinioMemorialBridge {
    type V = BridgeState;

    closed spec fn view(&self) -> BridgeState {
        BridgeState {
            message: opt_view(self.message),
            supply: self.supply,
            letter: opt_view(self.letter),
            holdings: holdings_map(self.holdings@),
        }
    }
}

impl OinioMemorialBridge {
    /// The storage is well formed: one supply record per address.
    pub closed spec fn wf(&self) -> bool {
        keys_unique(self.holdings@)
    }

    /// Empty storage.
    pub fn new() -> (r: OinioMemorialBridge)
        ensures
            r.wf(),
            r@ == BridgeState::empty(),
    {
        let r = OinioMemorialBridge { message: None, supply: None, letter: None, holdings: Vec::new() };
        assert(r@.holdings =~= Map::empty());
        r
    }

    /// The index of the supply record of `admin`, if there is one.
    fn find_holding(&self, admin: &String) -> (r: Option<usize>)
        ensures
            match r {
                Some(i) => i < self.holdings@.len() && self.holdings@[i as int].0@ == admin@,
                None => forall|j: int| 0 <= j < self.holdings@.len() ==> self.holdings@[j].0@ != admin@,
            },
    {
        let mut i: usize = 0;
        while i < self.holdings.len()
            invariant
                i <= self.holdings@.len(),
                forall|j: int| 0 <= j < i ==> self.holdings@[j].0@ != admin@,
            decreases self.holdings@.len() - i,
        {
            if self.holdings[i].0 == *admin {
                return Some(i);
            }
            i = i + 1;
        }
        None
    }

    /// Writes `amount` as the supply record of `admin`.
    fn record_holding(&mut self, admin: &String, amount: u64)
        requires
            old(self).wf(),
        ensures
            final(self).wf(),
            final(self)@ == (BridgeState { holdings: old(self)@.holdings.insert(admin@, amount), ..old(self)@ }),
    {
        match self.find_holding(admin) {
            Some(i) => {
                let key = admin.clone();
                proof {
                    lemma_holdings_update(self.holdings@, i as int, key, amount);
                }
                self.holdings.set(i, (key, amount));
                proof {
                    assert forall|a: int, b: int|
                        0 <= a < self.holdings@.len() && 0 <= b < self.holdings@.len() && a != b
                        implies self.holdings@[a].0@ != self.holdings@[b].0@ by {
                        assert(self.holdings@[a].0@ == old(self).holdings@[a].0@);
                        assert(self.holdings@[b].0@ == old(self).holdings@[b].0@);
                    }
                }
            },
            None => {
                self.holdings.push((admin.clone(), amount));
                assert(self.holdings@.drop_last() =~= old(self).holdings@);
                assert forall|a: int, b: int|
                    0 <= a < self.holdings@.len() && 0 <= b < self.holdings@.len() && a != b
                    implies self.holdings@[a].0@ != self.holdings@[b].0@ by {
                    if a < old(self).holdings@.len() && b < old(self).holdings@.len() {
                        assert(self.holdings@[a] == old(self).holdings@[a]);
                        assert(self.holdings@[b] == old(self).holdings@[b]);
                    }
                }
            },
        }
    }

    /// Records the admin's supply and writes the message and the global
    /// supply, provided the caller proved control of `admin`
    /// (`authorized`); otherwise storage is left as it was.
    pub fn initialize(&mut self, admin: &String, authorized: bool) -> (r: Result<(), BridgeError>)
        requires
            old(self).wf(),
        ensures
            final(self).wf(),
            authorized ==> r is Ok && final(self)@ == old(self)@.after_initialize(admin@),
            !authorized ==> r == Err::<(), BridgeError>(BridgeError::Unauthorized) && final(self)@ == old(self)@,
    {
        if !authorized {
            return Err(BridgeError::Unauthorized);
        }
        self.message = Some(MEMORIAL_MESSAGE.to_owned());
        self.supply = Some(TOTAL_SUPPLY);
        self.record_holding(admin, TOTAL_SUPPLY);
        Ok(())
    }

    /// Replaces the anchored letter reference with `letter_url`.
    pub fn anchor_letter(&mut self, letter_url: String)
        requires
            old(self).wf(),
        ensures
            final(self).wf(),
            final(self)@ == old(self)@.after_anchor(letter_url@),
    {
        self.letter = Some(letter_url);
    }

    /// The memorial message; storage must have been initialized.
    pub fn get_message(&self) -> (r: String)
        requires
            self@.message is Some,
        ensures
            r@ == self@.message->0,
    {
        match &self.message {
            Some(m) => m.clone(),
            None => String::new(),
        }
    }

    /// The anchored letter reference, or `None` if none was anchored.
    pub fn get_letter(&self) -> (r: Option<String>)
        ensures
            opt_view(r) == self@.letter,
    {
        match &self.letter {
            Some(l) => Some(l.clone()),
            None => None,
        }
    }

    /// Whether the message and the supply have been written, so that
    /// `get_message` and `get_supply` may be called.
    pub fn is_initialized(&self) -> (r: bool)
        ensures
            r == self@.initialized(),
    {
        self.message.is_some() && self.supply.is_some()
    }

    /// The supply recorded for `admin`, if `admin` ever initialized.
    pub fn get_admin_supply(&self, admin: &String) -> (r: Option<u64>)
        requires
            self.wf(),
        ensures
            r == (if self@.holdings.contains_key(admin@) {
                Some(self@.holdings[admin@])
            } else {
                None::<u64>
            }),
    {
        match self.find_holding(admin) {
            Some(i) => {
                proof {
                    lemma_holdings_index(self.holdings@, i as int);
                }
                Some(self.holdings[i].1)
            },
            None => {
                proof {
                    lemma_holdings_absent(self.holdings@, admin@);
                }
                None
            },
        }
    }

    /// The global supply; storage must have been initialized.
    pub fn get_supply(&self) -> (r: u64)
        requires
            self@.supply is Some,
        ensures
            r == self@.supply->0,
    {
        match self.supply {
            Some(v) => v,
            None => 0,
        }
    }
}

} // verus!
