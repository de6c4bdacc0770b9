use vstd::prelude::*;

use crate::errors::OracleError;
use crate::hexutil::{parse_b256, parse_hex_to_b256};
use crate::merkle::{
    char_views, compute_output_merkle_root, compute_tx_merkle_root, output_root_spec,
    tx_hashes_ok, tx_root_spec,
};
use crate::outputs::{extract_outputs, extract_spec, output_views, FetchedTx, MoneroOutput};
use crate::strutil::{contains_seq, str_contains};

verus! {

/// What one submission to the destination ledger came back as.
#[derive(Clone, Copy, Debug, PartialEq, Eq, Structural)]
pub enum SubmissionOutcome {
    /// The ledger accepted the block.
    Accepted,
    /// The ledger rejected the block because the height was already
    /// recorded: already satisfied, not a failure.
    RejectedDuplicate,
    /// Any other rejection: fatal for the rest of the pass.
    RejectedOther,
}

/// Whether the backfill goes on after an outcome: only a non-duplicate
/// rejection halts the pass.
pub open spec fn outcome_continues(o: SubmissionOutcome) -> bool {
    !(o is RejectedOther)
}

pub fn outcome_continues_exec(o: &SubmissionOutcome) -> (r: bool)
    ensures
        r == outcome_continues(*o),
{
    match o {
        SubmissionOutcome::RejectedOther => false,
        _ => true,
    }
}

/// The wording of a rejection that means the height was already recorded.
pub open spec fn is_duplicate_signal(msg: Seq<char>) -> bool {
    contains_seq(msg, "Block already posted"@) || contains_seq(msg, "Block exists"@)
}

/// Classify a submission rejection by its reported reason: an
/// already-recorded signal is non-fatal, anything else aborts the pass.
pub fn classify_rejection(msg: &str) -> (r: SubmissionOutcome)
    ensures
        r == (if is_duplicate_signal(msg@) {
            SubmissionOutcome::RejectedDuplicate
        } else {
            SubmissionOutcome::RejectedOther
        }),
{
    if str_contains(msg, "Block already posted") || str_contains(msg, "Block exists") {
        SubmissionOutcome::RejectedDuplicate
    } else {
        SubmissionOutcome::RejectedOther
    }
}

/// The heights a pass must submit: the inclusive range from just above the
/// posted height up to the head, ascending; empty when the head is not
/// ahead.
pub open spec fn backlog(posted: u64, head: u64) -> Seq<u64> {
    if head <= posted {
        Seq::empty()
    } else {
        Seq::new((head - posted) as nat, |i: int| (posted + 1 + i) as u64)
    }
}

/// Derive the ordered backlog of heights for one pass.
pub fn plan_backlog(posted: u64, head: u64) -> (r: Vec<u64>)
    ensures
        r@ == backlog(posted, head),
{
    let mut r: Vec<u64> = Vec::new();
    if head <= posted {
        proof {
            assert(r@ =~= backlog(posted, head));
        }
        return r;
    }
    let count = head - posted;
    let mut off: u64 = 0;
    while off < count
        invariant
            posted < head,
            count == head - posted,
            off <= count,
            r@.len() == off,
            forall|j: int| 0 <= j < off ==> r@[j] == posted + 1 + j,
        decreases count - off,
    {
        r.push(posted + 1 + off);
        off = off + 1;
    }
    proof {
        assert(r@ =~= backlog(posted, head));
    }
    r
}

/// How many submissions a pass makes, given the outcome each submission in
/// turn would get: every one up to and including the first fatal
/// rejection.
pub open spec fn stop_len(outcomes: Seq<SubmissionOutcome>) -> int
    decreases outcomes.len(),
{
    if outcomes.len() == 0 {
        0
    } else if !outcome_continues(outcomes[0]) {
        1
    } else {
        1 + stop_len(outcomes.skip(1))
    }
}

pub proof fn lemma_stop_len_bounds(outcomes: Seq<SubmissionOutcome>)
    ensures
        0 <= stop_len(outcomes) <= outcomes.len(),
    decreases outcomes.len(),
{
    if outcomes.len() > 0 && outcome_continues(outcomes[0]) {
        lemma_stop_len_bounds(outcomes.skip(1));
    }
}

/// Where the first `k` outcomes all continue and the `k`-th (if any) is
/// fatal, the pass makes exactly `k + 1` submissions, or all of them when
/// no outcome is fatal.
pub proof fn lemma_stop_len_at(outcomes: Seq<SubmissionOutcome>, k: int)
    requires
        0 <= k <= outcomes.len(),
        forall|j: int| 0 <= j < k ==> outcome_continues(#[trigger] outcomes[j]),
        k < outcomes.len() ==> !outcome_continues(outcomes[k]),
    ensures
        stop_len(outcomes) == if k < outcomes.len() {
            k + 1
        } else {
            k
        },
    decreases k,
{
    if outcomes.len() == 0 {
    } else if k == 0 {
        if !outcome_continues(outcomes[0]) {
        } else {
            lemma_stop_len_bounds(outcomes.skip(1));
        }
    } else {
        assert(outcome_continues(outcomes[0]));
        assert(forall|j: int| 0 <= j < k - 1 ==> outcome_continues(
            #[trigger] outcomes.skip(1)[j],
        ));
        lemma_stop_len_at(outcomes.skip(1), k - 1);
    }
}

/// Where the first `m` outcomes all continue, the pass reaches at least
/// the `m`-th submission.
pub proof fn lemma_stop_len_min(outcomes: Seq<SubmissionOutcome>, m: int)
    requires
        0 <= m <= outcomes.len(),
        forall|j: int| 0 <= j < m ==> outcome_continues(#[trigger] outcomes[j]),
    ensures
        stop_len(outcomes) >= if m < outcomes.len() {
            m + 1
        } else {
            m
        },
    decreases m,
{
    if outcomes.len() == 0 {
    } else if m == 0 {
        lemma_stop_len_bounds(outcomes.skip(1));
    } else {
        assert(forall|j: int| 0 <= j < m - 1 ==> outcome_continues(
            #[trigger] outcomes.skip(1)[j],
        ));
        lemma_stop_len_min(outcomes.skip(1), m - 1);
    }
}

/// The heights a pass actually submits: the plan, cut off just after the
/// first fatal rejection.
pub open spec fn attempted(plan: Seq<u64>, outcomes: Seq<SubmissionOutcome>) -> Seq<u64> {
    let n = stop_len(outcomes);
    if n <= plan.len() {
        plan.take(n)
    } else {
        plan
    }
}

/// With the head ahead of the posted height, the planned heights are
/// exactly the inclusive range above the posted height, ascending one at a
/// time; and when every submission goes through (accepted or duplicate),
/// the pass submits exactly that plan.
pub proof fn lemma_backlog_submitted_in_order(
    posted: u64,
    head: u64,
    outcomes: Seq<SubmissionOutcome>,
)
    requires
        posted < head,
        outcomes.len() == backlog(posted, head).len(),
        forall|j: int| 0 <= j < outcomes.len() ==> outcome_continues(#[trigger] outcomes[j]),
    ensures
        backlog(posted, head).len() == head - posted,
        forall|i: int| 0 <= i < head - posted ==> backlog(posted, head)[i] == posted + 1 + i,
        attempted(backlog(posted, head), outcomes) == backlog(posted, head),
{
    lemma_stop_len_at(outcomes, outcomes.len() as int);
    assert(attempted(backlog(posted, head), outcomes) =~= backlog(posted, head));
}

/// Whatever the outcomes, a pass submits a gap-free ascending prefix of
/// the backlog, one height at a time: the i-th submission is for height
/// posted + 1 + i, and nothing outside the backlog is ever submitted.
pub proof fn lemma_submissions_ascending(posted: u64, head: u64, outcomes: Seq<SubmissionOutcome>)
    requires
        outcomes.len() == backlog(posted, head).len(),
    ensures
        attempted(backlog(posted, head), outcomes).len() <= backlog(posted, head).len(),
        forall|i: int|
            0 <= i < attempted(backlog(posted, head), outcomes).len() ==> #[trigger] attempted(
                backlog(posted, head),
                outcomes,
            )[i] == posted + 1 + i,
{
    lemma_stop_len_bounds(outcomes);
}

/// A duplicate rejection at one height does not halt the pass: the next
/// planned height is still submitted.
pub proof fn lemma_duplicate_continues(
    plan: Seq<u64>,
    outcomes: Seq<SubmissionOutcome>,
    k: int,
)
    requires
        outcomes.len() == plan.len(),
        0 <= k,
        k + 1 < plan.len(),
        forall|j: int| 0 <= j < k ==> outcome_continues(#[trigger] outcomes[j]),
        outcomes[k] is RejectedDuplicate,
    ensures
        attempted(plan, outcomes).len() >= k + 2,
        attempted(plan, outcomes)[k + 1] == plan[k + 1],
{
    assert(forall|j: int| 0 <= j < k + 1 ==> outcome_continues(#[trigger] outcomes[j]));
    lemma_stop_len_min(outcomes, k + 1);
    lemma_stop_len_bounds(outcomes);
}

/// A fatal rejection at one height ends the pass right there: exactly the
/// plan up to and including that height is submitted, nothing beyond it.
pub proof fn lemma_fatal_halts(plan: Seq<u64>, outcomes: Seq<SubmissionOutcome>, k: int)
    requires
        outcomes.len() == plan.len(),
        0 <= k < plan.len(),
        forall|j: int| 0 <= j < k ==> outcome_continues(#[trigger] outcomes[j]),
        !outcome_continues(outcomes[k]),
    ensures
        attempted(plan, outcomes) == plan.take(k + 1),
{
    lemma_stop_len_at(outcomes, k);
}

/// One reconciliation pass over the backlog, given the outcome each
/// submission in turn gets: the heights submitted, in ascending order,
/// stopping just after the first fatal rejection. This models the driver
/// loop; the loop itself performs one submission at a time and asks
/// `outcome_continues_exec` whether to go on.
pub fn cycle_submissions(posted: u64, head: u64, outcomes: &Vec<SubmissionOutcome>) -> (r: Vec<
    u64,
>)
    requires
        outcomes@.len() == backlog(posted, head).len(),
    ensures
        r@ == attempted(backlog(posted, head), outcomes@),
{
    let plan = plan_backlog(posted, head);
    let mut out: Vec<u64> = Vec::new();
    let mut k: usize = 0;
    let mut halted = false;
    while k < plan.len() && !halted
        invariant
            plan@ == backlog(posted, head),
            outcomes@.len() == plan@.len(),
            k <= plan@.len(),
            !halted ==> (forall|j: int| 0 <= j < k ==> outcome_continues(#[trigger] outcomes@[j])),
            !halted ==> out@ == plan@.take(k as int),
            halted ==> out@ == attempted(plan@, outcomes@),
        decreases plan@.len() - k,
    {
        let height = plan[k];
        proof {
            assert(plan@.take(k as int).push(plan@[k as int]) =~= plan@.take(k as int + 1));
        }
        out.push(height);
        let oc = outcomes[k];
        if !outcome_continues_exec(&oc) {
            proof {
                lemma_stop_len_at(outcomes@, k as int);
                assert(out@ =~= attempted(plan@, outcomes@));
            }
            halted = true;
        }
        k = k + 1;
    }
    proof {
        if !halted {
            lemma_stop_len_at(outcomes@, outcomes@.len() as int);
            assert(out@ =~= attempted(plan@, outcomes@));
        }
    }
    out
}

/// Everything one per-block submission carries.
pub struct BlockPost {
    pub height: u64,
    pub block_hash: Vec<u8>,
    pub tx_root: Vec<u8>,
    pub output_root: Vec<u8>,
}

/// Compute the submission fields for one block from its fetched data:
/// parse the header hash and build both Merkle roots. A block is handed
/// on only with both roots computed; any malformed hexadecimal field
/// aborts the whole block.
pub fn process_block(
    height: u64,
    block_hash_hex: &String,
    tx_hashes: &Vec<String>,
    txs: &Vec<FetchedTx>,
) -> (r: Result<BlockPost, OracleError>)
    ensures
        match r {
            Ok(p) => parse_b256(block_hash_hex@) == Some(p.block_hash@) && p.height == height
                && tx_hashes_ok(char_views(tx_hashes@)) && p.tx_root@ == tx_root_spec(
                char_views(tx_hashes@),
            ) && (extract_spec(txs@) matches Some(ms) && p.output_root@ == output_root_spec(ms)),
            Err(e) => (parse_b256(block_hash_hex@) is None || !tx_hashes_ok(char_views(tx_hashes@))
                || extract_spec(txs@) is None) && (e is Encoding),
        },
{
    let block_hash = match parse_hex_to_b256(block_hash_hex.as_str()) {
        Ok(v) => v,
        Err(_) => {
            return Err(OracleError::Encoding);
        },
    };
    let tx_root = match compute_tx_merkle_root(tx_hashes) {
        Ok(v) => v,
        Err(_) => {
            return Err(OracleError::Encoding);
        },
    };
    let outs: Vec<MoneroOutput> = match extract_outputs(txs) {
        Ok(v) => v,
        Err(_) => {
            return Err(OracleError::Encoding);
        },
    };
    let output_root = compute_output_merkle_root(&outs);
    Ok(BlockPost { height, block_hash, tx_root, output_root })
}

} // verus!
