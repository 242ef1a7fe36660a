//! The token ledger: supply admission, provenance-gated minting of signed
//! records and whole-record transfers.
use crate::error::LedgerError;
use crate::identifier::{derive_id, token_key};
use crate::keys::KeyPair;
use vstd::prelude::*;
use vstd::string::StringExecFns;

verus! {

/// Supply cap set by `init`: one hundred billion units.
pub const DEFAULT_CAP: u64 = 100_000_000_000;

/// Reference-currency value of one unit set by `init`.
pub const DEFAULT_PRICE: u64 = 314159;

/// Size in bits of the key generated by `init`.
pub const DEFAULT_KEY_BITS: usize = 2048;

/// Amounts above this are flagged by `check_anomaly`.
pub const ANOMALY_THRESHOLD: u64 = 1_000_000_000;

/// A minted token record.
#[derive(Clone, Debug, PartialEq, Eq)]
pub struct PiCoin {
    pub amount: u64,
    pub owner: String,
    pub source: String,
    pub verified: bool,
}

/// What a token record holds.
pub struct CoinView {
    pub amount: nat,
    pub owner: Seq<char>,
    pub source: Seq<char>,
    pub verified: bool,
}

impl View for PiCoin {
    type V = CoinView;

    open spec fn view(&self) -> CoinView {
        CoinView {
            amount: self.amount as nat,
            owner: self.owner@,
            source: self.source@,
            verified: self.verified,
        }
    }
}

impl PiCoin {
    /// A copy of the record.
    pub fn copied(&self) -> (r: PiCoin)
        ensures
            r@ == self@,
    {
        PiCoin {
            amount: self.amount,
            owner: self.owner.clone(),
            source: self.source.clone(),
            verified: self.verified,
        }
    }
}

/// A stored record with its identifier.
struct Entry {
    id: [u8; 64],
    coin: PiCoin,
}

/// What the ledger holds: the cap, the issued total, the price constant, the
/// allowed provenance tags and the records by identifier.
pub struct LedgerView {
    pub cap: nat,
    pub issued: nat,
    pub price: nat,
    pub allowed: Set<Seq<char>>,
    pub coins: Map<Seq<u8>, CoinView>,
}

impl LedgerView {
    /// Whether `amount` more can be issued without passing the cap.
    pub open spec fn admits(self, amount: nat) -> bool {
        self.issued + amount <= self.cap
    }

    /// The first check that refuses a mint, if any: the caller must be the
    /// recipient, the tag must be allowed, and the cap must admit the amount.
    pub open spec fn mint_check(
        self,
        caller: Seq<char>,
        to: Seq<char>,
        amount: nat,
        source: Seq<char>,
    ) -> Option<LedgerError> {
        if caller != to {
            Some(LedgerError::Unauthenticated)
        } else if !self.allowed.contains(source) {
            Some(LedgerError::InvalidSource)
        } else if !self.admits(amount) {
            Some(LedgerError::SupplyExceeded)
        } else {
            None
        }
    }

    /// The record a mint creates.
    pub open spec fn new_coin(to: Seq<char>, amount: nat, source: Seq<char>) -> CoinView {
        CoinView { amount, owner: to, source, verified: true }
    }

    /// The ledger after a mint: the issued total grows by `amount` and the new
    /// record is stored under its derived identifier, replacing any record
    /// already there.
    pub open spec fn minted(self, to: Seq<char>, amount: nat, source: Seq<char>) -> LedgerView {
        LedgerView {
            issued: self.issued + amount,
            coins: self.coins.insert(
                token_key(to, amount, source),
                Self::new_coin(to, amount, source),
            ),
            ..self
        }
    }

    /// The first check that refuses a transfer, if any: the caller must be the
    /// sender, the record must exist, belong to the sender and hold the amount.
    pub open spec fn transfer_check(
        self,
        caller: Seq<char>,
        from: Seq<char>,
        amount: nat,
        id: Seq<u8>,
    ) -> Option<LedgerError> {
        if caller != from {
            Some(LedgerError::Unauthenticated)
        } else if !self.coins.contains_key(id) {
            Some(LedgerError::NotFound)
        } else if self.coins[id].owner != from {
            Some(LedgerError::NotOwner)
        } else if self.coins[id].amount < amount {
            Some(LedgerError::InsufficientBalance)
        } else {
            None
        }
    }

    /// The ledger after a transfer: the record loses `amount` and, whole,
    /// passes to `to`.
    pub open spec fn transferred(self, to: Seq<char>, amount: nat, id: Seq<u8>) -> LedgerView {
        LedgerView {
            coins: self.coins.insert(
                id,
                CoinView { amount: (self.coins[id].amount - amount) as nat, owner: to, ..self.coins[id] },
            ),
            ..self
        }
    }

    /// The value of `amount` units at the price constant, if it fits in 64 bits.
    pub open spec fn quote(self, amount: nat) -> Result<u64, LedgerError> {
        if amount * self.price <= u64::MAX {
            Ok((amount * self.price) as u64)
        } else {
            Err(LedgerError::ArithmeticOverflow)
        }
    }
}

/// The token ledger.
pub struct PiCoinContract {
    cap: u64,
    issued: u64,
    price: u64,
    allowed: Vec<String>,
    keys: KeyPair,
    coins: Vec<Entry>,
}

/// Whether some entry is stored under `k`.
closed spec fn stored(entries: Seq<Entry>, k: Seq<u8>) -> bool {
    exists|i: int| 0 <= i < entries.len() && entries[i].id@ == k
}

/// The records of a list of entries, by identifier.
closed spec fn coins_of(entries: Seq<Entry>) -> Map<Seq<u8>, CoinView> {
    Map::new(
        |k: Seq<u8>| stored(entries, k),
        |k: Seq<u8>| entries[choose|i: int| 0 <= i < entries.len() && entries[i].id@ == k].coin@,
    )
}

/// Identifiers of a list of entries are pairwise distinct.
closed spec fn unique_ids(entries: Seq<Entry>) -> bool {
    forall|i: int, j: int|
        0 <= i < entries.len() && 0 <= j < entries.len() && i != j ==> entries[i].id@
            != entries[j].id@
}

proof fn lemma_coins_at(entries: Seq<Entry>, i: int)
    requires
        unique_ids(entries),
        0 <= i < entries.len(),
    ensures
        coins_of(entries).contains_key(entries[i].id@),
        coins_of(entries)[entries[i].id@] == entries[i].coin@,
{
    let k = entries[i].id@;
    assert(stored(entries, k));
    let j = choose|j: int| 0 <= j < entries.len() && entries[j].id@ == k;
    assert(i == j);
}

impl View for PiCoinContract {
    type V = LedgerView;

    closed spec fn view(&self) -> LedgerView {
        LedgerView {
            cap: self.cap as nat,
            issued: self.issued as nat,
            price: self.price as nat,
            allowed: self.allowed@.map_values(|t: String| t@).to_set(),
            coins: coins_of(self.coins@),
        }
    }
}

impl PiCoinContract {
    /// The ledger's invariant: the issued total is within the cap, identifiers
    /// are distinct, and every record is verified and carries an allowed tag.
    pub closed spec fn wf(&self) -> bool {
        &&& self.issued <= self.cap
        &&& unique_ids(self.coins@)
        &&& forall|i: int|
            0 <= i < self.coins@.len() ==> {
                &&& #[trigger] self.coins@[i].coin.verified
                &&& self@.allowed.contains(self.coins@[i].coin.source@)
            }
    }

    /// The invariant, restated over the view: what every caller may rely on.
    pub proof fn lemma_wf(&self)
        requires
            self.wf(),
        ensures
            self@.issued <= self@.cap,
            self@.cap <= u64::MAX,
            self@.price <= u64::MAX,
            forall|k: Seq<u8>| #[trigger]
                self@.coins.contains_key(k) ==> self@.coins[k].verified && self@.allowed.contains(
                    self@.coins[k].source,
                ),
    {
        assert forall|k: Seq<u8>| #[trigger] self@.coins.contains_key(k) implies self@.coins[k].verified
            && self@.allowed.contains(self@.coins[k].source) by {
            let i = choose|i: int| 0 <= i < self.coins@.len() && self.coins@[i].id@ == k;
            lemma_coins_at(self.coins@, i);
        }
    }
}

/// Replacing entry `i` by one with the same identifier updates that one record.
proof fn lemma_coins_set(old_e: Seq<Entry>, i: int, e: Entry)
    requires
        unique_ids(old_e),
        0 <= i < old_e.len(),
        old_e[i].id@ == e.id@,
    ensures
        unique_ids(old_e.update(i, e)),
        coins_of(old_e.update(i, e)) == coins_of(old_e).insert(e.id@, e.coin@),
{
    let new_e = old_e.update(i, e);
    assert forall|a: int, b: int|
        0 <= a < new_e.len() && 0 <= b < new_e.len() && a != b implies new_e[a].id@
        != new_e[b].id@ by {
        assert(old_e[a].id@ != old_e[b].id@);
    }
    lemma_coins_at(new_e, i);
    assert forall|k: Seq<u8>| #[trigger] stored(new_e, k) == (stored(old_e, k) || k == e.id@) by {
        if stored(old_e, k) {
            let j = choose|j: int| 0 <= j < old_e.len() && old_e[j].id@ == k;
            assert(new_e[j].id@ == k);
        }
        if stored(new_e, k) {
            let j = choose|j: int| 0 <= j < new_e.len() && new_e[j].id@ == k;
            assert(old_e[j].id@ == k);
        }
    }
    assert forall|k: Seq<u8>| stored(new_e, k) && k != e.id@ implies #[trigger] coins_of(new_e)[k]
        == coins_of(old_e)[k] by {
        let j = choose|j: int| 0 <= j < new_e.len() && new_e[j].id@ == k;
        lemma_coins_at(new_e, j);
        lemma_coins_at(old_e, j);
    }
    assert(coins_of(new_e) =~= coins_of(old_e).insert(e.id@, e.coin@));
}

/// Appending an entry with a fresh identifier adds that one record.
proof fn lemma_coins_push(old_e: Seq<Entry>, e: Entry)
    requires
        unique_ids(old_e),
        !stored(old_e, e.id@),
    ensures
        unique_ids(old_e.push(e)),
        coins_of(old_e.push(e)) == coins_of(old_e).insert(e.id@, e.coin@),
{
    let new_e = old_e.push(e);
    let n = old_e.len() as int;
    assert forall|a: int, b: int|
        0 <= a < new_e.len() && 0 <= b < new_e.len() && a != b implies new_e[a].id@
        != new_e[b].id@ by {
        if a < n && b < n {
            assert(old_e[a].id@ != old_e[b].id@);
        } else if a < n {
            assert(old_e[a].id@ == new_e[a].id@);
        } else {
            assert(old_e[b].id@ == new_e[b].id@);
        }
    }
    lemma_coins_at(new_e, n);
    assert forall|k: Seq<u8>| #[trigger] stored(new_e, k) == (stored(old_e, k) || k == e.id@) by {
        if stored(old_e, k) {
            let j = choose|j: int| 0 <= j < old_e.len() && old_e[j].id@ == k;
            assert(new_e[j].id@ == k);
        }
        if stored(new_e, k) && k != e.id@ {
            let j = choose|j: int| 0 <= j < new_e.len() && new_e[j].id@ == k;
            assert(old_e[j].id@ == k);
        }
    }
    assert forall|k: Seq<u8>| stored(new_e, k) && k != e.id@ implies #[trigger] coins_of(new_e)[k]
        == coins_of(old_e)[k] by {
        let j = choose|j: int| 0 <= j < new_e.len() && new_e[j].id@ == k;
        lemma_coins_at(new_e, j);
        lemma_coins_at(old_e, j);
    }
    assert(coins_of(new_e) =~= coins_of(old_e).insert(e.id@, e.coin@));
}

/// Whether two identifiers are equal.
fn same_id(a: &[u8; 64], b: &[u8; 64]) -> (r: bool)
    ensures
        r == (a@ == b@),
{
    let mut i: usize = 0;
    while i < 64
        invariant
            i <= 64,
            a@.len() == 64,
            b@.len() == 64,
            forall|j: int| 0 <= j < i ==> a@[j] == b@[j],
        decreases 64 - i,
    {
        if a[i] != b[i] {
            return false;
        }
        i = i + 1;
    }
    assert(a@ =~= b@);
    true
}

impl PiCoinContract {
    /// Position of the entry stored under `id`.
    fn find(&self, id: &[u8; 64]) -> (r: Option<usize>)
        ensures
            match r {
                Some(i) => i < self.coins@.len() && self.coins@[i as int].id@ == id@,
                None => !stored(self.coins@, id@),
            },
    {
        let mut i: usize = 0;
        while i < self.coins.len()
            invariant
                i <= self.coins@.len(),
                forall|j: int| 0 <= j < i ==> self.coins@[j].id@ != id@,
            decreases self.coins@.len() - i,
        {
            if same_id(&self.coins[i].id, id) {
                return Some(i);
            }
            i = i + 1;
        }
        None
    }

    /// Stores `coin` under `id`, replacing the record already there.
    fn store(&mut self, id: [u8; 64], coin: PiCoin)
        requires
            unique_ids(old(self).coins@),
        ensures
            unique_ids(final(self).coins@),
            coins_of(final(self).coins@) == coins_of(old(self).coins@).insert(id@, coin@),
            forall|i: int|
                0 <= i < final(self).coins@.len() ==> final(self).coins@[i].coin@ == coin@ || (i
                    < old(self).coins@.len() && final(self).coins@[i] == old(self).coins@[i]),
            final(self).cap == old(self).cap,
            final(self).issued == old(self).issued,
            final(self).price == old(self).price,
            final(self).allowed == old(self).allowed,
    {
        let ghost before = self.coins@;
        let entry = Entry { id, coin };
        match self.find(&id) {
            Some(i) => {
                proof {
                    lemma_coins_set(before, i as int, entry);
                }
                self.coins.set(i, entry);
            },
            None => {
                proof {
                    lemma_coins_push(before, entry);
                }
                self.coins.push(entry);
            },
        }
    }
}

impl PiCoinContract {
    /// The size in bits of the ledger's signing key.
    pub closed spec fn key_bits(&self) -> nat {
        self.keys.bits()
    }

    /// A ledger with the given cap, price constant, allowed provenance tags
    /// and signing keys; nothing issued and no records.
    pub fn new(cap: u64, price: u64, allowed: Vec<String>, keys: KeyPair) -> (r: PiCoinContract)
        ensures
            r.wf(),
            r.key_bits() == keys.bits(),
            r@.cap == cap,
            r@.issued == 0,
            r@.price == price,
            r@.allowed == allowed@.map_values(|t: String| t@).to_set(),
            r@.coins == Map::<Seq<u8>, CoinView>::empty(),
    {
        let r = PiCoinContract { cap, issued: 0, price, allowed, keys, coins: Vec::new() };
        assert(coins_of(r.coins@) =~= Map::<Seq<u8>, CoinView>::empty());
        r
    }

    /// The ledger as set up once at the start: a cap of one hundred billion
    /// units, a price constant of 314159, the tags "mining", "rewards" and
    /// "p2p", and a fresh 2048-bit signing key. Set up on behalf of the
    /// authenticated `caller`, who must be `admin` (else `Unauthenticated`,
    /// and no key is generated); `SigningError` when no key could be generated.
    pub fn init(caller: &str, admin: &str) -> (r: Result<PiCoinContract, LedgerError>)
        ensures
            caller@ != admin@ ==> r == Err::<PiCoinContract, LedgerError>(
                LedgerError::Unauthenticated,
            ),
            caller@ == admin@ ==> match r {
                Ok(ledger) => {
                    &&& ledger.wf()
                    &&& ledger.key_bits() == DEFAULT_KEY_BITS
                    &&& ledger@.cap == DEFAULT_CAP
                    &&& ledger@.issued == 0
                    &&& ledger@.price == DEFAULT_PRICE
                    &&& ledger@.allowed == set!["mining"@, "rewards"@, "p2p"@]
                    &&& ledger@.coins == Map::<Seq<u8>, CoinView>::empty()
                },
                Err(e) => e == LedgerError::SigningError,
            },
    {
        let c = String::from_str(caller);
        let a = String::from_str(admin);
        if !(c == a) {
            return Err(LedgerError::Unauthenticated);
        }
        let keys = match KeyPair::generate(DEFAULT_KEY_BITS) {
            Ok(keys) => keys,
            Err(e) => return Err(e),
        };
        let mut allowed: Vec<String> = Vec::new();
        allowed.push(String::from_str("mining"));
        allowed.push(String::from_str("rewards"));
        allowed.push(String::from_str("p2p"));
        let ledger = Self::new(DEFAULT_CAP, DEFAULT_PRICE, allowed, keys);
        assert(ledger@.allowed =~= set!["mining"@, "rewards"@, "p2p"@]) by {
            let tags = allowed@.map_values(|t: String| t@);
            assert(tags[0] == "mining"@);
            assert(tags[1] == "rewards"@);
            assert(tags[2] == "p2p"@);
            assert(tags =~= seq!["mining"@, "rewards"@, "p2p"@]);
        }
        Ok(ledger)
    }

    /// The supply cap.
    pub fn cap(&self) -> (r: u64)
        ensures
            r == self@.cap,
    {
        self.cap
    }

    /// The amount issued so far.
    pub fn issued(&self) -> (r: u64)
        ensures
            r == self@.issued,
    {
        self.issued
    }

    /// The price constant.
    pub fn price(&self) -> (r: u64)
        ensures
            r == self@.price,
    {
        self.price
    }

    /// Whether `tag` is an allowed provenance tag.
    pub fn is_allowed(&self, tag: &str) -> (r: bool)
        ensures
            r == self@.allowed.contains(tag@),
    {
        let wanted = String::from_str(tag);
        let ghost tags = self.allowed@.map_values(|t: String| t@);
        let mut i: usize = 0;
        while i < self.allowed.len()
            invariant
                i <= self.allowed@.len(),
                tags == self.allowed@.map_values(|t: String| t@),
                wanted@ == tag@,
                forall|j: int| 0 <= j < i ==> tags[j] != tag@,
            decreases self.allowed@.len() - i,
        {
            if self.allowed[i] == wanted {
                assert(tags[i as int] == tag@);
                return true;
            }
            i = i + 1;
        }
        false
    }

    /// The record stored under `id`, if any.
    pub fn coin(&self, id: &[u8; 64]) -> (r: Option<PiCoin>)
        requires
            self.wf(),
        ensures
            match r {
                Some(c) => self@.coins.contains_key(id@) && c@ == self@.coins[id@],
                None => !self@.coins.contains_key(id@),
            },
    {
        match self.find(id) {
            Some(i) => {
                proof {
                    lemma_coins_at(self.coins@, i as int);
                }
                Some(self.coins[i].coin.copied())
            },
            None => None,
        }
    }

    /// Admission check of the supply: advances the issued total by `amount`
    /// when the cap allows it, and refuses with `SupplyExceeded` otherwise.
    pub fn admit_mint(&mut self, amount: u64) -> (r: Result<(), LedgerError>)
        requires
            old(self).wf(),
        ensures
            final(self).wf(),
            old(self)@.admits(amount as nat) ==> r == Ok::<(), LedgerError>(()) && final(self)@
                == (LedgerView { issued: old(self)@.issued + amount as nat, ..old(self)@ }),
            !old(self)@.admits(amount as nat) ==> r == Err::<(), LedgerError>(
                LedgerError::SupplyExceeded,
            ) && final(self)@ == old(self)@,
    {
        if amount <= self.cap - self.issued {
            self.issued = self.issued + amount;
            Ok(())
        } else {
            Err(LedgerError::SupplyExceeded)
        }
    }

    /// The first check that refuses minting `amount` from `source` to `to` on
    /// behalf of `caller`, if any.
    pub fn mint_refusal(&self, caller: &str, to: &str, amount: u64, source: &str) -> (r: Option<
        LedgerError,
    >)
        requires
            self.wf(),
        ensures
            r == self@.mint_check(caller@, to@, amount as nat, source@),
    {
        let c = String::from_str(caller);
        let t = String::from_str(to);
        if !(c == t) {
            return Some(LedgerError::Unauthenticated);
        }
        if !self.is_allowed(source) {
            return Some(LedgerError::InvalidSource);
        }
        if amount > self.cap - self.issued {
            return Some(LedgerError::SupplyExceeded);
        }
        None
    }

    /// Mints given whether the signing of the new identifier succeeded: the
    /// checks of `mint_check` come first, then a failed signature is a
    /// `SigningError`; on success the issued total grows by `amount` and the
    /// new verified record is stored under its identifier and returned.
    pub fn mint_signed(
        &mut self,
        caller: &str,
        to: &str,
        amount: u64,
        source: &str,
        signed: bool,
    ) -> (r: Result<PiCoin, LedgerError>)
        requires
            old(self).wf(),
        ensures
            final(self).wf(),
            match old(self)@.mint_check(caller@, to@, amount as nat, source@) {
                Some(e) => r == Err::<PiCoin, LedgerError>(e) && final(self)@ == old(self)@,
                None => if signed {
                    &&& r is Ok
                    &&& r->Ok_0@ == LedgerView::new_coin(to@, amount as nat, source@)
                    &&& final(self)@ == old(self)@.minted(to@, amount as nat, source@)
                } else {
                    r == Err::<PiCoin, LedgerError>(LedgerError::SigningError) && final(self)@
                        == old(self)@
                },
            },
    {
        if let Some(e) = self.mint_refusal(caller, to, amount, source) {
            return Err(e);
        }
        if !signed {
            return Err(LedgerError::SigningError);
        }
        let ghost before = *self;
        self.issued = self.issued + amount;
        let id = derive_id(to, amount, source);
        let coin = PiCoin {
            amount,
            owner: String::from_str(to),
            source: String::from_str(source),
            verified: true,
        };
        let out = coin.copied();
        self.store(id, coin);
        assert(self@.allowed == before@.allowed);
        assert forall|i: int| 0 <= i < self.coins@.len() implies {
            &&& #[trigger] self.coins@[i].coin.verified
            &&& self@.allowed.contains(self.coins@[i].coin.source@)
        } by {
            if i < before.coins@.len() && self.coins@[i] == before.coins@[i] {
                assert(before.coins@[i].coin.verified);
            }
        }
        assert(self@ =~= before@.minted(to@, amount as nat, source@));
        Ok(out)
    }

    /// The public half of the ledger's signing key.
    pub fn public_key(&self) -> (r: &rsa::RsaPublicKey) {
        self.keys.public_key()
    }

    /// Mints `amount` units from provenance `source` to `to`, on behalf of the
    /// authenticated `caller`: refused as `mint_check` says, then the new
    /// identifier is signed; a failed signature is a `SigningError` that
    /// leaves the ledger as it was.
    pub fn mint(&mut self, caller: &str, to: &str, amount: u64, source: &str) -> (r: Result<
        PiCoin,
        LedgerError,
    >)
        requires
            old(self).wf(),
        ensures
            final(self).wf(),
            match old(self)@.mint_check(caller@, to@, amount as nat, source@) {
                Some(e) => r == Err::<PiCoin, LedgerError>(e) && final(self)@ == old(self)@,
                None => match r {
                    Ok(coin) => coin@ == LedgerView::new_coin(to@, amount as nat, source@)
                        && final(self)@ == old(self)@.minted(to@, amount as nat, source@),
                    Err(e) => e == LedgerError::SigningError && final(self)@ == old(self)@,
                },
            },
    {
        let signed = if self.mint_refusal(caller, to, amount, source).is_none() {
            let id = derive_id(to, amount, source);
            match self.keys.sign(&id) {
                Ok(_) => true,
                Err(_) => false,
            }
        } else {
            false
        };
        self.mint_signed(caller, to, amount, source, signed)
    }

    /// Moves `amount` out of the record under `coin_id` and hands the whole
    /// record to `to`, on behalf of the authenticated `caller`; refused as
    /// `transfer_check` says.
    pub fn transfer(
        &mut self,
        caller: &str,
        from: &str,
        to: &str,
        amount: u64,
        coin_id: &[u8; 64],
    ) -> (r: Result<(), LedgerError>)
        requires
            old(self).wf(),
        ensures
            final(self).wf(),
            match old(self)@.transfer_check(caller@, from@, amount as nat, coin_id@) {
                Some(e) => r == Err::<(), LedgerError>(e) && final(self)@ == old(self)@,
                None => r == Ok::<(), LedgerError>(()) && final(self)@ == old(self)@.transferred(
                    to@,
                    amount as nat,
                    coin_id@,
                ),
            },
    {
        let c = String::from_str(caller);
        let f = String::from_str(from);
        if !(c == f) {
            return Err(LedgerError::Unauthenticated);
        }
        let i = match self.find(coin_id) {
            Some(i) => i,
            None => return Err(LedgerError::NotFound),
        };
        proof {
            lemma_coins_at(self.coins@, i as int);
        }
        if !(self.coins[i].coin.owner == f) {
            return Err(LedgerError::NotOwner);
        }
        if self.coins[i].coin.amount < amount {
            return Err(LedgerError::InsufficientBalance);
        }
        let ghost before = *self;
        let entry = Entry {
            id: self.coins[i].id,
            coin: PiCoin {
                amount: self.coins[i].coin.amount - amount,
                owner: String::from_str(to),
                source: self.coins[i].coin.source.clone(),
                verified: self.coins[i].coin.verified,
            },
        };
        proof {
            lemma_coins_set(before.coins@, i as int, entry);
        }
        self.coins.set(i, entry);
        assert forall|j: int| 0 <= j < self.coins@.len() implies {
            &&& #[trigger] self.coins@[j].coin.verified
            &&& self@.allowed.contains(self.coins@[j].coin.source@)
        } by {
            assert(before.coins@[j].coin.verified);
        }
        assert(self@ =~= before@.transferred(to@, amount as nat, coin_id@));
        Ok(())
    }

    /// The reference-currency value of `amount` units: `amount` times the
    /// price constant, or `ArithmeticOverflow` when that exceeds 64 bits.
    pub fn get_usd_value(&self, amount: u64) -> (r: Result<u64, LedgerError>)
        ensures
            r == self@.quote(amount as nat),
    {
        match amount.checked_mul(self.price) {
            Some(v) => Ok(v),
            None => Err(LedgerError::ArithmeticOverflow),
        }
    }

    /// Whether `amount` is flagged as anomalous: a fixed threshold, not a
    /// predictive model.
    pub fn check_anomaly(amount: u64) -> (r: bool)
        ensures
            r == (amount > ANOMALY_THRESHOLD),
    {
        amount > ANOMALY_THRESHOLD
    }
}

} // verus!
