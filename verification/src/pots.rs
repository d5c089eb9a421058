//! Finding pots by name, finding the transaction of a deposit into a pot, and
//! how often that transaction is looked for.

use crate::currency::Amount;
use crate::error::Error;
use vstd::prelude::*;
use vstd::string::StringExecFns;

verus! {

/// A savings pot, with what the tool reads of it.
pub struct Pot {
    pub id: String,
    pub name: String,
    pub deleted: bool,
    pub current_account_id: String,
}

/// A transaction, with what the tool reads of it to recognise a deposit.
pub struct Transaction {
    pub id: String,
    /// The `pot_id` entry of the transaction's metadata, if any.
    pub pot_id: Option<String>,
    /// Whether the transaction's metadata has a `notes` entry.
    pub has_notes: bool,
    /// The amount in pence, negative for money leaving the account.
    pub amount: i64,
}

/// What `str::to_lowercase` gives for a text.
pub uninterp spec fn lowercase(s: Seq<char>) -> Seq<char>;

/// The lowercase form of `s` (`str::to_lowercase`, by the Unicode case rules
/// of the standard library); the contract only names the result.
#[verifier::external_body]
fn to_lowercase(s: &str) -> (res: String)
    ensures
        res@ == lowercase(s@),
{
    s.to_lowercase()
}

/// The positions of the pots that are not deleted, in order.
pub open spec fn live_pots(pots: Seq<Pot>) -> Seq<usize>
    decreases pots.len(),
{
    if pots.len() == 0 {
        Seq::empty()
    } else if pots.last().deleted {
        live_pots(pots.drop_last())
    } else {
        live_pots(pots.drop_last()).push((pots.len() - 1) as usize)
    }
}

/// The positions of the pots that are shown: those not deleted, in order.
pub fn live_pot_positions(pots: &Vec<Pot>) -> (res: Vec<usize>)
    ensures
        res@ == live_pots(pots@),
{
    let mut out: Vec<usize> = Vec::new();
    let n = pots.len();
    let mut i: usize = 0;
    while i < n
        invariant
            n == pots@.len(),
            i <= n,
            out@ == live_pots(pots@.take(i as int)),
        decreases n - i,
    {
        assert(pots@.take(i + 1).drop_last() == pots@.take(i as int));
        assert(pots@.take(i + 1).last() == pots@[i as int]);
        if !pots[i].deleted {
            out.push(i);
        }
        i = i + 1;
    }
    assert(pots@.take(n as int) == pots@);
    out
}

/// The pot is not deleted and its lowercased name is `wanted`.
pub open spec fn pot_matches(pot: Pot, lowered_name: Seq<char>, wanted: Seq<char>) -> bool {
    !pot.deleted && lowered_name == wanted
}

/// The position of the first pot that matches, if any.
pub open spec fn first_matching_pot(
    pots: Seq<Pot>,
    lowered: Seq<Seq<char>>,
    wanted: Seq<char>,
) -> Option<int>
    decreases pots.len(),
{
    if pots.len() == 0 {
        None
    } else {
        match first_matching_pot(pots.drop_last(), lowered, wanted) {
            Some(i) => Some(i),
            None => if pot_matches(pots.last(), lowered[pots.len() - 1], wanted) {
                Some(pots.len() - 1)
            } else {
                None
            },
        }
    }
}

/// Given the lowercased names of the pots, the first pot that is not deleted
/// and whose lowercased name is `wanted`.
pub fn find_matching_pot(pots: &Vec<Pot>, lowered: &Vec<String>, wanted: &String) -> (res:
    Option<usize>)
    requires
        lowered.len() == pots.len(),
    ensures
        res == match first_matching_pot(pots@, lowered@.map_values(|s: String| s@), wanted@) {
            Some(i) => Some(i as usize),
            None => None::<usize>,
        },
        res matches Some(i) ==> {
            &&& i < pots@.len()
            &&& !pots@[i as int].deleted
            &&& lowered@[i as int]@ == wanted@
            &&& forall|j: int| 0 <= j < i ==> pots@[j].deleted || lowered@[j]@ != wanted@
        },
        res is None ==> forall|j: int| 0 <= j < pots@.len() ==> pots@[j].deleted || lowered@[j]@ != wanted@,
{
    proof {
        let ns = lowered@.map_values(|s: String| s@);
        law_first_matching_pot(pots@, ns, wanted@);
        assert forall|j: int| 0 <= j < lowered@.len() implies #[trigger] lowered@[j]@ == ns[j] by {}
    }
    let ghost names = lowered@.map_values(|s: String| s@);
    let n = pots.len();
    let mut i: usize = 0;
    while i < n
        invariant
            n == pots@.len(),
            n == lowered@.len(),
            names == lowered@.map_values(|s: String| s@),
            i <= n,
            first_matching_pot(pots@.take(i as int), names, wanted@) is None,
        decreases n - i,
    {
        assert(pots@.take(i + 1).drop_last() == pots@.take(i as int));
        assert(pots@.take(i + 1).last() == pots@[i as int]);
        if !pots[i].deleted && lowered[i] == *wanted {
            proof {
                lemma_first_matching_prefix(pots@, names, wanted@, i + 1);
                law_first_matching_pot(pots@, names, wanted@);
                assert forall|j: int| 0 <= j < lowered@.len() implies #[trigger] lowered@[j]@
                    == names[j] by {}
            }
            return Some(i);
        }
        i = i + 1;
    }
    assert(pots@.take(n as int) == pots@);
    None
}

/// A match among the first `k` pots is the first match among all pots.
proof fn lemma_first_matching_prefix(
    pots: Seq<Pot>,
    lowered: Seq<Seq<char>>,
    wanted: Seq<char>,
    k: int,
)
    requires
        0 <= k <= pots.len(),
        first_matching_pot(pots.take(k), lowered, wanted) is Some,
    ensures
        first_matching_pot(pots, lowered, wanted) == first_matching_pot(pots.take(k), lowered, wanted),
    decreases pots.len(),
{
    if k < pots.len() {
        assert(pots.drop_last().take(k) == pots.take(k));
        lemma_first_matching_prefix(pots.drop_last(), lowered, wanted, k);
    } else {
        assert(pots.take(k) == pots);
    }
}

/// The first pot that is not deleted and whose name equals `name` when both
/// are lowercased.
pub fn find_pot_in(pots: &Vec<Pot>, name: &str) -> (res: Option<usize>)
    ensures
        res == match first_matching_pot(
            pots@,
            pots@.map_values(|p: Pot| lowercase(p.name@)),
            lowercase(name@),
        ) {
            Some(i) => Some(i as usize),
            None => None::<usize>,
        },
        res matches Some(i) ==> {
            &&& i < pots@.len()
            &&& !pots@[i as int].deleted
            &&& lowercase(pots@[i as int].name@) == lowercase(name@)
            &&& forall|j: int| 0 <= j < i ==> pots@[j].deleted || lowercase(pots@[j].name@) != lowercase(name@)
        },
        res is None ==> forall|j: int|
            0 <= j < pots@.len() ==> pots@[j].deleted || lowercase(pots@[j].name@) != lowercase(name@),
{
    let mut lowered: Vec<String> = Vec::new();
    let n = pots.len();
    let mut i: usize = 0;
    while i < n
        invariant
            n == pots@.len(),
            i <= n,
            lowered@.len() == i,
            forall|j: int| 0 <= j < i ==> #[trigger] lowered@[j]@ == lowercase(pots@[j].name@),
        decreases n - i,
    {
        let l = to_lowercase(pots[i].name.as_str());
        lowered.push(l);
        i = i + 1;
    }
    let wanted = to_lowercase(name);
    assert(lowered@.map_values(|s: String| s@) =~= pots@.map_values(|p: Pot| lowercase(p.name@)));
    find_matching_pot(pots, &lowered, &wanted)
}

/// The pot that was looked for, or the error that no pot of that name exists.
pub fn require_pot<T>(found: Option<T>, pot_name: &str) -> (res: Result<T, Error>)
    ensures
        match found {
            Some(i) => res == Ok::<T, Error>(i),
            None => res matches Err(Error::PotNotFound { pot_name: p }) && p@ == pot_name@,
        },
{
    match found {
        Some(i) => Ok(i),
        None => Err(Error::PotNotFound { pot_name: String::from_str(pot_name) }),
    }
}

/// A transaction is the deposit of `pence` into the pot `pot_id` when it is
/// for that pot, carries no notes yet, and moves exactly that many pence.
pub open spec fn is_deposit(tx: Transaction, pot_id: Seq<char>, pence: u32) -> bool {
    &&& tx.pot_id matches Some(p) && p@ == pot_id
    &&& !tx.has_notes
    &&& (tx.amount == pence || tx.amount == -pence)
}

/// The position of the first deposit among the transactions, if any.
pub open spec fn first_deposit(txs: Seq<Transaction>, pot_id: Seq<char>, pence: u32) -> Option<
    int,
>
    decreases txs.len(),
{
    if txs.len() == 0 {
        None
    } else {
        match first_deposit(txs.drop_last(), pot_id, pence) {
            Some(i) => Some(i),
            None => if is_deposit(txs.last(), pot_id, pence) {
                Some(txs.len() - 1)
            } else {
                None
            },
        }
    }
}

proof fn lemma_first_deposit_prefix(txs: Seq<Transaction>, pot_id: Seq<char>, pence: u32, k: int)
    requires
        0 <= k <= txs.len(),
        first_deposit(txs.take(k), pot_id, pence) is Some,
    ensures
        first_deposit(txs, pot_id, pence) == first_deposit(txs.take(k), pot_id, pence),
    decreases txs.len(),
{
    if k < txs.len() {
        assert(txs.drop_last().take(k) == txs.take(k));
        lemma_first_deposit_prefix(txs.drop_last(), pot_id, pence, k);
    } else {
        assert(txs.take(k) == txs);
    }
}

/// The first transaction that is the deposit of `amount` into the pot
/// `pot_id`: for that pot, without notes, of exactly that many pence in
/// either direction; the error when there is none.
pub fn find_deposit_in(txs: &Vec<Transaction>, pot_id: &String, amount: &Amount) -> (res: Result<
    usize,
    Error,
>)
    ensures
        match first_deposit(txs@, pot_id@, amount.pence) {
            Some(i) => res == Ok::<usize, Error>(i as usize),
            None => res matches Err(Error::DepositTransactionNotFound),
        },
        res matches Ok(i) ==> {
            &&& i < txs@.len()
            &&& txs@[i as int].pot_id matches Some(p) && p@ == pot_id@
            &&& !txs@[i as int].has_notes
            &&& (txs@[i as int].amount == amount.pence || txs@[i as int].amount == -amount.pence)
        },
        res is Err ==> forall|j: int|
            0 <= j < txs@.len() ==> !((#[trigger] txs@[j]).pot_id matches Some(p) && p@ == pot_id@
                && !txs@[j].has_notes && (txs@[j].amount == amount.pence || txs@[j].amount
                == -amount.pence)),
{
    proof {
        law_first_deposit(txs@, pot_id@, amount.pence);
    }
    let n = txs.len();
    let pence: i64 = amount.pence as i64;
    let mut i: usize = 0;
    while i < n
        invariant
            n == txs@.len(),
            i <= n,
            pence == amount.pence,
            first_deposit(txs@.take(i as int), pot_id@, amount.pence) is None,
        decreases n - i,
    {
        assert(txs@.take(i + 1).drop_last() == txs@.take(i as int));
        assert(txs@.take(i + 1).last() == txs@[i as int]);
        let tx = &txs[i];
        let for_pot = match &tx.pot_id {
            Some(p) => *p == *pot_id,
            None => false,
        };
        if for_pot && !tx.has_notes && (tx.amount == pence || tx.amount == -pence) {
            proof {
                lemma_first_deposit_prefix(txs@, pot_id@, amount.pence, i + 1);
            }
            return Ok(i);
        }
        i = i + 1;
    }
    assert(txs@.take(n as int) == txs@);
    Err(Error::DepositTransactionNotFound)
}

/// The pot found is the first pot that is not deleted and whose lowercased
/// name is exactly the wanted text; none is found exactly when no pot that is
/// not deleted has that lowercased name.
pub proof fn law_first_matching_pot(pots: Seq<Pot>, lowered: Seq<Seq<char>>, wanted: Seq<char>)
    ensures
        first_matching_pot(pots, lowered, wanted) matches Some(i) ==> {
            &&& 0 <= i < pots.len()
            &&& !pots[i].deleted && lowered[i] == wanted
            &&& forall|j: int| 0 <= j < i ==> !(!pots[j].deleted && lowered[j] == wanted)
        },
        first_matching_pot(pots, lowered, wanted) is None ==> forall|j: int|
            0 <= j < pots.len() ==> !(!pots[j].deleted && lowered[j] == wanted),
    decreases pots.len(),
{
    if pots.len() > 0 {
        let init = pots.drop_last();
        law_first_matching_pot(init, lowered, wanted);
        match first_matching_pot(init, lowered, wanted) {
            Some(i) => {
                assert forall|j: int| 0 <= j < i implies !(!pots[j].deleted && lowered[j] == wanted) by {
                    assert(pots[j] == init[j]);
                }
                assert(pots[i] == init[i]);
            },
            None => {
                assert forall|j: int| 0 <= j < pots.len() - 1 implies !(!pots[j].deleted && lowered[j] == wanted) by {
                    assert(pots[j] == init[j]);
                }
            },
        }
    }
}

/// The transaction found is the first one that is for the pot, has no notes,
/// and moves exactly `pence` pence in either direction; none is found exactly
/// when no transaction is all of these.
pub proof fn law_first_deposit(txs: Seq<Transaction>, pot_id: Seq<char>, pence: u32)
    ensures
        first_deposit(txs, pot_id, pence) matches Some(i) ==> {
            &&& 0 <= i < txs.len()
            &&& txs[i].pot_id matches Some(p) && p@ == pot_id
            &&& !txs[i].has_notes
            &&& (txs[i].amount == pence || txs[i].amount == -pence)
            &&& forall|j: int| 0 <= j < i ==> !((#[trigger] txs[j]).pot_id matches Some(p) && p@ == pot_id && !txs[j].has_notes && (txs[j].amount == pence || txs[j].amount == -pence))
        },
        first_deposit(txs, pot_id, pence) is None ==> forall|j: int|
            0 <= j < txs.len() ==> !((#[trigger] txs[j]).pot_id matches Some(p) && p@ == pot_id && !txs[j].has_notes && (txs[j].amount == pence || txs[j].amount == -pence)),
    decreases txs.len(),
{
    if txs.len() > 0 {
        let init = txs.drop_last();
        law_first_deposit(init, pot_id, pence);
        match first_deposit(init, pot_id, pence) {
            Some(i) => {
                assert forall|j: int| 0 <= j < i implies !((#[trigger] txs[j]).pot_id matches Some(p) && p@ == pot_id && !txs[j].has_notes && (txs[j].amount == pence || txs[j].amount == -pence)) by {
                    assert(txs[j] == init[j]);
                }
                assert(txs[i] == init[i]);
            },
            None => {
                assert forall|j: int| 0 <= j < txs.len() - 1 implies !((#[trigger] txs[j]).pot_id matches Some(p) && p@ == pot_id && !txs[j].has_notes && (txs[j].amount == pence || txs[j].amount == -pence)) by {
                    assert(txs[j] == init[j]);
                }
            },
        }
    }
}

/// The positions of the live pots are exactly those of the pots that are not
/// deleted, in increasing order.
pub proof fn lemma_live_pots(pots: Seq<Pot>)
    requires
        pots.len() <= usize::MAX,
    ensures
        forall|i: int| 0 <= i < live_pots(pots).len() ==> {
            let k = #[trigger] live_pots(pots)[i];
            k < pots.len() && !pots[k as int].deleted
        },
        forall|j: int|
            0 <= j < pots.len() && !(#[trigger] pots[j]).deleted ==> live_pots(pots).contains(
                j as usize,
            ),
        forall|i: int, j: int|
            0 <= i < j < live_pots(pots).len() ==> #[trigger] live_pots(pots)[i] < #[trigger] live_pots(
                pots,
            )[j],
    decreases pots.len(),
{
    if pots.len() > 0 {
        let init = pots.drop_last();
        lemma_live_pots(init);
        let ki = live_pots(init);
        let k = live_pots(pots);
        assert forall|i: int| 0 <= i < k.len() implies {
            let x = #[trigger] k[i];
            x < pots.len() && !pots[x as int].deleted
        } by {
            if i < ki.len() {
                assert(k[i] == ki[i]);
                let x = ki[i];
                assert(x < init.len() && !init[x as int].deleted);
                assert(pots[x as int] == init[x as int]);
            } else {
                assert(k[i] == (pots.len() - 1) as usize);
            }
        }
        assert forall|j: int| 0 <= j < pots.len() && !(#[trigger] pots[j]).deleted implies k.contains(
            j as usize,
        ) by {
            if j < pots.len() - 1 {
                assert(init[j] == pots[j]);
                assert(ki.contains(j as usize));
                let w = choose|w: int| 0 <= w < ki.len() && ki[w] == j as usize;
                assert(k[w] == ki[w]);
            } else {
                assert(k[k.len() - 1] == j as usize);
            }
        }
        assert forall|i: int, j: int| 0 <= i < j < k.len() implies #[trigger] k[i] < #[trigger] k[j] by {
            if j < ki.len() {
                assert(k[i] == ki[i] && k[j] == ki[j]);
            } else {
                assert(k[i] == ki[i]);
                let x = ki[i];
                assert(x < init.len() && !init[x as int].deleted);
                assert(k[j] == (pots.len() - 1) as usize);
            }
        }
    }
}

/// How many times the transaction of a deposit is looked for at most.
pub const DEPOSIT_LOOKUP_ATTEMPTS: u32 = 4;

/// The state of looking for the transaction of a deposit: which attempt this is.
pub struct DepositRetry {
    attempt: u32,
}

impl DepositRetry {
    /// The number of the current attempt, counted from one.
    pub closed spec fn spec_attempt(&self) -> nat {
        self.attempt as nat
    }

    /// The attempt is one of the allowed ones.
    pub open spec fn wf(&self) -> bool {
        1 <= self.spec_attempt() <= DEPOSIT_LOOKUP_ATTEMPTS
    }

    /// Before the first attempt.
    pub fn new() -> (res: DepositRetry)
        ensures
            res.wf(),
            res.spec_attempt() == 1,
    {
        DepositRetry { attempt: 1 }
    }

    /// After a failed attempt: whether to try again; if so the attempt count
    /// goes up by one, otherwise the search gives up.
    pub fn after_failed_lookup(&mut self) -> (retry: bool)
        requires
            old(self).wf(),
        ensures
            final(self).wf(),
            retry == (old(self).spec_attempt() < DEPOSIT_LOOKUP_ATTEMPTS),
            retry ==> final(self).spec_attempt() == old(self).spec_attempt() + 1,
            !retry ==> final(self).spec_attempt() == old(self).spec_attempt(),
    {
        if self.attempt >= DEPOSIT_LOOKUP_ATTEMPTS {
            false
        } else {
            self.attempt = self.attempt + 1;
            true
        }
    }
}

/// How many further attempts the search grants from attempt `a` on, when
/// every attempt fails.
pub open spec fn retries_granted(a: nat) -> nat
    decreases DEPOSIT_LOOKUP_ATTEMPTS - a,
{
    if a < DEPOSIT_LOOKUP_ATTEMPTS {
        1 + retries_granted(a + 1)
    } else {
        0
    }
}

/// The transaction of a deposit is looked for at most `DEPOSIT_LOOKUP_ATTEMPTS`
/// times: a fresh search grants, by `after_failed_lookup`, exactly
/// `DEPOSIT_LOOKUP_ATTEMPTS - 1` further attempts, and each further attempt
/// is granted only while the count is below the limit.
pub proof fn law_lookups_bounded()
    ensures
        retries_granted(1) == DEPOSIT_LOOKUP_ATTEMPTS - 1,
        forall|a: nat| 1 <= a <= DEPOSIT_LOOKUP_ATTEMPTS ==> #[trigger] retries_granted(a)
            == DEPOSIT_LOOKUP_ATTEMPTS - a,
{
    assert forall|a: nat| 1 <= a <= DEPOSIT_LOOKUP_ATTEMPTS implies #[trigger] retries_granted(a)
        == DEPOSIT_LOOKUP_ATTEMPTS - a by {
        lemma_retries_granted(a);
    }
    lemma_retries_granted(1);
}

proof fn lemma_retries_granted(a: nat)
    requires
        a <= DEPOSIT_LOOKUP_ATTEMPTS,
    ensures
        retries_granted(a) == DEPOSIT_LOOKUP_ATTEMPTS - a,
    decreases DEPOSIT_LOOKUP_ATTEMPTS - a,
{
    if a < DEPOSIT_LOOKUP_ATTEMPTS {
        lemma_retries_granted(a + 1);
    }
}

} // verus!
