//! Properties that relate several ledger operations.
use crate::identifier::token_key;
use crate::ledger::LedgerView;
use vstd::prelude::*;

verus! {

/// The sum of the amounts of a run of mints, each given as
/// `(owner, amount, source)`.
pub open spec fn total_minted(steps: Seq<(Seq<char>, nat, Seq<char>)>) -> nat
    decreases steps.len(),
{
    if steps.len() == 0 {
        0
    } else {
        total_minted(steps.drop_last()) + steps.last().1
    }
}

/// Along any run of successful mints from a ledger within its cap, the issued
/// total stays within the cap after every mint, and at the end it is the
/// starting total plus the sum of the minted amounts. Each step is what a
/// successful `mint` ensures: its checks passed, so the cap admitted the
/// amount, and the ledger became `minted(..)` of the one before.
pub proof fn lemma_supply_invariant(
    views: Seq<LedgerView>,
    steps: Seq<(Seq<char>, nat, Seq<char>)>,
)
    requires
        views.len() == steps.len() + 1,
        views[0].issued <= views[0].cap,
        forall|i: int| 0 <= i < steps.len() ==> views[i].admits(#[trigger] steps[i].1),
        forall|i: int|
            #![trigger views[i + 1]]
            0 <= i < steps.len() ==> views[i + 1] == views[i].minted(
                steps[i].0,
                steps[i].1,
                steps[i].2,
            ),
    ensures
        forall|i: int| 0 <= i < views.len() ==> #[trigger] views[i].issued <= views[i].cap,
        views.last().issued == views[0].issued + total_minted(steps),
    decreases steps.len(),
{
    if steps.len() > 0 {
        let n = steps.len() - 1;
        let prefix = views.drop_last();
        let short = steps.drop_last();
        assert forall|i: int| 0 <= i < short.len() implies prefix[i].admits(
            #[trigger] short[i].1,
        ) by {
            assert(short[i] == steps[i]);
            assert(prefix[i] == views[i]);
        }
        assert forall|i: int|
            #![trigger prefix[i + 1]]
            0 <= i < short.len() implies prefix[i + 1] == prefix[i].minted(
                short[i].0,
                short[i].1,
                short[i].2,
            ) by {
            assert(views[i + 1] == views[i].minted(steps[i].0, steps[i].1, steps[i].2));
            assert(prefix[i] == views[i]);
            assert(prefix[i + 1] == views[i + 1]);
            assert(short[i] == steps[i]);
        }
        lemma_supply_invariant(prefix, short);
        assert(views[n + 1] == views[n].minted(steps[n].0, steps[n].1, steps[n].2));
        assert(views[n].admits(steps[n].1));
        assert(prefix[n] == views[n]);
        assert forall|i: int| 0 <= i < views.len() implies #[trigger] views[i].issued
            <= views[i].cap by {
            if i < views.len() - 1 {
                assert(prefix[i] == views[i]);
            }
        }
    }
}

/// A successful transfer keeps the record under its identifier, and what the
/// record holds afterwards plus the amount moved is exactly what it held
/// before (so with nothing moved it holds the same); no other record and not
/// the issued total changes.
pub proof fn lemma_transfer_conservation(
    v: LedgerView,
    caller: Seq<char>,
    from: Seq<char>,
    to: Seq<char>,
    amount: nat,
    id: Seq<u8>,
)
    requires
        v.transfer_check(caller, from, amount, id) is None,
    ensures
        v.transferred(to, amount, id).coins.contains_key(id),
        v.transferred(to, amount, id).coins[id].amount + amount == v.coins[id].amount,
        amount == 0 ==> v.transferred(to, amount, id).coins[id].amount == v.coins[id].amount,
        v.transferred(to, amount, id).coins.remove(id) == v.coins.remove(id),
        v.transferred(to, amount, id).issued == v.issued,
{
    assert(v.transferred(to, amount, id).coins.remove(id) =~= v.coins.remove(id));
}

/// Mints with equal owner, amount and source derive equal identifiers, so
/// the second of two such mints stores its record where the first did and
/// replaces it.
pub proof fn lemma_identifier_deterministic(
    v: LedgerView,
    owner1: Seq<char>,
    amount1: nat,
    source1: Seq<char>,
    owner2: Seq<char>,
    amount2: nat,
    source2: Seq<char>,
)
    requires
        owner1 == owner2,
        amount1 == amount2,
        source1 == source2,
    ensures
        token_key(owner1, amount1, source1) == token_key(owner2, amount2, source2),
        v.minted(owner1, amount1, source1).minted(owner2, amount2, source2).coins == v.minted(
            owner2,
            amount2,
            source2,
        ).coins,
{
    assert(v.minted(owner1, amount1, source1).minted(owner2, amount2, source2).coins =~= v.minted(
        owner2,
        amount2,
        source2,
    ).coins);
}

} // verus!
