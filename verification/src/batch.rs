//! Batch deposits: the rows of a batch file, where each row's deposit goes,
//! and the counts of rows that succeeded and failed.

use crate::accounts::{account_type_label, Type};
use crate::config::{first_destination, Config};
use crate::currency::{format_pence, Amount};
use crate::error::Error;
use crate::text::{decimal, decimal_string};
use vstd::prelude::*;
use vstd::string::StringExecFns;

verus! {

/// One row of a batch file: deposit `amount` from an account of type
/// `account` into the pot configured for that type.
pub struct Row {
    pub account: Type,
    pub category: String,
    pub description: String,
    pub amount: Amount,
}

/// How a row is described in the log.
pub open spec fn row_text(row: Row) -> Seq<char> {
    "account="@ + account_type_label(row.account) + ", category="@ + row.category@
        + ", description="@ + row.description@ + ", amount="@ + format_pence(
        row.amount.pence as nat,
    )
}

impl Row {
    /// The row as `account=…, category=…, description=…, amount=…`.
    pub fn describe(&self) -> (res: String)
        ensures
            res@ == row_text(*self),
    {
        let mut out = String::from_str("account=");
        let account = self.account.value();
        out.append(account.as_str());
        out.append(", category=");
        out.append(self.category.as_str());
        out.append(", description=");
        out.append(self.description.as_str());
        out.append(", amount=");
        let amount = self.amount.to_string();
        out.append(amount.as_str());
        out
    }
}

/// The name of the pot that a row's deposit goes to: that of the first
/// destination configured for the row's account type; if there is none, the
/// error names the account type.
pub fn deposit_destination(row: &Row, config: &Config) -> (res: Result<String, Error>)
    ensures
        match first_destination(config@, row.account) {
            Some(i) => res matches Ok(name) && name@ == config@[i].pot_name@,
            None => res matches Err(Error::PotNotFound { pot_name }) && pot_name@
                == account_type_label(row.account),
        },
{
    match config.get_pot_for_deposit(&row.account) {
        Some(destination) => Ok(destination.pot_name.clone()),
        None => Err(Error::PotNotFound { pot_name: row.account.value() }),
    }
}

/// How many of the outcomes of rows are `ok` (`true` for a row that succeeded).
pub open spec fn count_outcomes(outcomes: Seq<bool>, ok: bool) -> nat
    decreases outcomes.len(),
{
    if outcomes.len() == 0 {
        0
    } else {
        count_outcomes(outcomes.drop_last(), ok) + if outcomes.last() == ok {
            1nat
        } else {
            0nat
        }
    }
}

/// The text that shows counts of rows.
pub open spec fn summary_text(rows: nat, successes: nat, failures: nat) -> Seq<char> {
    "total_rows="@ + decimal(rows) + ", successful="@ + decimal(successes) + ", failed="@
        + decimal(failures)
}

/// Counts of the rows of a batch run: all rows, and those that succeeded or failed.
pub struct CSVMetrics {
    rows: u16,
    success: u16,
    failed: u16,
}

impl CSVMetrics {
    /// The number of rows counted.
    pub closed spec fn spec_rows(&self) -> nat {
        self.rows as nat
    }

    /// The number of rows that succeeded.
    pub closed spec fn spec_successes(&self) -> nat {
        self.success as nat
    }

    /// The number of rows that failed.
    pub closed spec fn spec_failures(&self) -> nat {
        self.failed as nat
    }

    /// Every row counted either succeeded or failed.
    pub open spec fn wf(&self) -> bool {
        self.spec_rows() == self.spec_successes() + self.spec_failures()
    }

    /// The counts are those of the rows with the given outcomes, in any order.
    pub open spec fn records(&self, outcomes: Seq<bool>) -> bool {
        &&& self.spec_rows() == outcomes.len()
        &&& self.spec_successes() == count_outcomes(outcomes, true)
        &&& self.spec_failures() == count_outcomes(outcomes, false)
    }

    /// No rows counted yet.
    pub fn new() -> (res: CSVMetrics)
        ensures
            res.wf(),
            res.spec_rows() == 0,
            res.spec_successes() == 0,
            res.spec_failures() == 0,
            res.records(Seq::empty()),
    {
        CSVMetrics { rows: 0, success: 0, failed: 0 }
    }

    /// Counts a row that succeeded.
    pub fn success(&mut self)
        requires
            old(self).wf(),
            old(self).spec_rows() < u16::MAX,
        ensures
            final(self).wf(),
            final(self).spec_rows() == old(self).spec_rows() + 1,
            final(self).spec_successes() == old(self).spec_successes() + 1,
            final(self).spec_failures() == old(self).spec_failures(),
            forall|outcomes: Seq<bool>|
                #[trigger] old(self).records(outcomes) ==> final(self).records(
                    outcomes.push(true),
                ),
    {
        self.rows = self.rows + 1;
        self.success = self.success + 1;
        assert forall|outcomes: Seq<bool>| #[trigger] old(self).records(outcomes) implies self.records(
            outcomes.push(true),
        ) by {
            assert(outcomes.push(true).drop_last() =~= outcomes);
        }
    }

    /// Counts a row that failed.
    pub fn failure(&mut self)
        requires
            old(self).wf(),
            old(self).spec_rows() < u16::MAX,
        ensures
            final(self).wf(),
            final(self).spec_rows() == old(self).spec_rows() + 1,
            final(self).spec_successes() == old(self).spec_successes(),
            final(self).spec_failures() == old(self).spec_failures() + 1,
            forall|outcomes: Seq<bool>|
                #[trigger] old(self).records(outcomes) ==> final(self).records(
                    outcomes.push(false),
                ),
    {
        self.rows = self.rows + 1;
        self.failed = self.failed + 1;
        assert forall|outcomes: Seq<bool>| #[trigger] old(self).records(outcomes) implies self.records(
            outcomes.push(false),
        ) by {
            assert(outcomes.push(false).drop_last() =~= outcomes);
        }
    }

    /// Whether one more row can be counted.
    pub fn has_room(&self) -> (res: bool)
        ensures
            res == (self.spec_rows() < u16::MAX),
    {
        self.rows < 65535u16
    }

    /// The counts as `total_rows=…, successful=…, failed=…`.
    pub fn summary(&self) -> (res: String)
        ensures
            res@ == summary_text(self.spec_rows(), self.spec_successes(), self.spec_failures()),
    {
        let mut out = String::from_str("total_rows=");
        let rows = decimal_string(self.rows as u64);
        out.append(rows.as_str());
        out.append(", successful=");
        let success = decimal_string(self.success as u64);
        out.append(success.as_str());
        out.append(", failed=");
        let failed = decimal_string(self.failed as u64);
        out.append(failed.as_str());
        out
    }
}

proof fn lemma_count_outcomes(outcomes: Seq<bool>)
    ensures
        count_outcomes(outcomes, true) + count_outcomes(outcomes, false) == outcomes.len(),
        count_outcomes(outcomes, true) == outcomes.to_multiset().count(true),
        count_outcomes(outcomes, false) == outcomes.to_multiset().count(false),
    decreases outcomes.len(),
{
    broadcast use vstd::seq_lib::group_to_multiset_ensures;

    if outcomes.len() > 0 {
        let init = outcomes.drop_last();
        lemma_count_outcomes(init);
        assert(init.push(outcomes.last()) =~= outcomes);
    } else {
        assert(outcomes.to_multiset() =~= vstd::multiset::Multiset::empty());
    }
}

/// Whatever rows succeed and fail, in whatever order: counts that record the
/// outcomes of the rows hold as many rows as there were outcomes, as many
/// successes and failures as there are of each among them (so the order does
/// not matter), and show as that text.
pub proof fn law_metrics_record_outcomes(m: CSVMetrics, outcomes: Seq<bool>)
    requires
        m.records(outcomes),
    ensures
        m.wf(),
        m.spec_rows() == outcomes.len(),
        m.spec_successes() == outcomes.to_multiset().count(true),
        m.spec_failures() == outcomes.to_multiset().count(false),
        summary_text(m.spec_rows(), m.spec_successes(), m.spec_failures()) == summary_text(
            outcomes.len(),
            outcomes.to_multiset().count(true),
            outcomes.to_multiset().count(false),
        ),
{
    lemma_count_outcomes(outcomes);
}

} // verus!
