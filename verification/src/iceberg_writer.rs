//! Committing files to a table, again and again while others come first.
use crate::inline_cells::{text_writes, write_text};
use std::collections::hash_map::DefaultHasher;
use std::hash::Hasher;
use vstd::bytes::{spec_u32_to_le_bytes, spec_u64_to_le_bytes, u32_to_le_bytes, u64_to_le_bytes};
use vstd::prelude::*;
use vstd::std_specs::hash::DefaultHasherAdditionalSpecFns;

verus! {

/// How often a commit is tried again after it was beaten.
pub const COMMIT_MAX_RETRIES: u32 = 5;

/// The shortest wait between two attempts, in milliseconds.
pub const COMMIT_BACKOFF_BASE: u64 = 5;

/// The longest wait between two attempts, in milliseconds, before the spread.
pub const COMMIT_BACKOFF_CAP: u64 = 200;

/// A file that was written.
#[derive(Debug)]
pub struct WrittenFile {
    pub path: String,
    pub record_count: i64,
    pub file_size_bytes: i64,
}

/// A file that was written, from the counts of its writer.
pub fn written_file(path: String, record_count: u64, file_size_bytes: u64) -> (r: WrittenFile)
    ensures
        r == (WrittenFile {
            path,
            record_count: record_count as i64,
            file_size_bytes: file_size_bytes as i64,
        }),
{
    WrittenFile {
        path,
        record_count: record_count as i64,
        file_size_bytes: file_size_bytes as i64,
    }
}

/// `COMMIT_BACKOFF_BASE`, doubled `attempt` times.
pub open spec fn doubled_base(attempt: nat) -> nat
    decreases attempt,
{
    if attempt == 0 {
        COMMIT_BACKOFF_BASE as nat
    } else {
        2 * doubled_base((attempt - 1) as nat)
    }
}

/// The wait without the spread: doubled with each attempt, up to the cap.
pub open spec fn backoff_base(attempt: nat) -> nat {
    let n = doubled_base(
        if attempt < 16 {
            attempt
        } else {
            16
        },
    );
    if n < COMMIT_BACKOFF_CAP {
        n
    } else {
        COMMIT_BACKOFF_CAP as nat
    }
}

/// What the parts of a name write into a hash.
pub open spec fn names_writes(names: Seq<String>) -> Seq<Seq<u8>>
    decreases names.len(),
{
    if names.len() == 0 {
        Seq::empty()
    } else {
        names_writes(names.drop_last()) + text_writes(names.last()@)
    }
}

/// What a table and an attempt write into the hash that spreads the waits.
pub open spec fn spread_writes(namespace: Seq<String>, name: Seq<char>, attempt: u32) -> Seq<Seq<u8>> {
    seq![spec_u64_to_le_bytes(namespace.len() as u64)] + names_writes(namespace) + text_writes(name)
        + seq![spec_u32_to_le_bytes(attempt)]
}

/// The wait after the attempt numbered `attempt`, in milliseconds.
pub open spec fn backoff_millis(namespace: Seq<String>, name: Seq<char>, attempt: u32) -> int {
    backoff_base(attempt as nat) + (DefaultHasher::spec_finish(
        spread_writes(namespace, name, attempt),
    ) % COMMIT_BACKOFF_BASE)
}

/// The wait after the attempt numbered `attempt`, in milliseconds: doubled with each
/// attempt up to a cap, and spread by the table and the attempt.
pub fn commit_backoff(namespace: &Vec<String>, name: &str, attempt: u32) -> (r: u64)
    ensures
        r == backoff_millis(namespace@, name@, attempt),
{
    let mut exp: u64 = COMMIT_BACKOFF_BASE;
    let steps: u32 = if attempt < 16 {
        attempt
    } else {
        16
    };
    let mut i: u32 = 0;
    proof {
        lemma_doubled_bound(steps as nat);
    }
    while i < steps
        invariant
            i <= steps <= 16,
            exp == doubled_base(i as nat),
            exp <= COMMIT_BACKOFF_BASE * 65536,
        decreases steps - i,
    {
        proof {
            lemma_doubled_bound((i + 1) as nat);
        }
        exp = exp * 2;
        i = i + 1;
    }
    if exp > COMMIT_BACKOFF_CAP {
        exp = COMMIT_BACKOFF_CAP;
    }
    let mut h: DefaultHasher = DefaultHasher::new();
    let count: Vec<u8> = u64_to_le_bytes(namespace.len() as u64);
    h.write(count.as_slice());
    let ghost head = h@;
    let mut k: usize = 0;
    assert(namespace@.take(0) =~= Seq::empty());
    assert(h@ =~= head + names_writes(namespace@.take(0)));
    while k < namespace.len()
        invariant
            k <= namespace@.len(),
            h@ == head + names_writes(namespace@.take(k as int)),
        decreases namespace@.len() - k,
    {
        assert(namespace@.take(k + 1).drop_last() =~= namespace@.take(k as int));
        write_text(&mut h, namespace[k].as_str());
        assert(h@ =~= head + names_writes(namespace@.take(k + 1)));
        k = k + 1;
    }
    assert(namespace@.take(k as int) =~= namespace@);
    write_text(&mut h, name);
    let number: Vec<u8> = u32_to_le_bytes(attempt);
    h.write(number.as_slice());
    assert(h@ =~= spread_writes(namespace@, name@, attempt));
    exp + h.finish() % COMMIT_BACKOFF_BASE
}

proof fn lemma_doubled_bound(n: nat)
    requires
        n <= 16,
    ensures
        doubled_base(n) <= COMMIT_BACKOFF_BASE * 65536,
{
    reveal_with_fuel(doubled_base, 17);
}

/// A wait is never shorter than the shortest, and never as long as the cap and the
/// shortest together.
pub proof fn law_backoff_is_bounded(namespace: Seq<String>, name: Seq<char>, attempt: u32)
    ensures
        COMMIT_BACKOFF_BASE <= backoff_millis(namespace, name, attempt) < COMMIT_BACKOFF_CAP
            + COMMIT_BACKOFF_BASE,
{
    lemma_doubled_low(
        if attempt < 16 {
            attempt as nat
        } else {
            16
        },
    );
}

proof fn lemma_doubled_low(n: nat)
    ensures
        COMMIT_BACKOFF_BASE <= doubled_base(n),
    decreases n,
{
    if n > 0 {
        lemma_doubled_low((n - 1) as nat);
    }
}

/// How an attempt to commit came out.
#[derive(Clone, Copy, Debug, PartialEq, Eq, Structural)]
pub enum AttemptOutcome {
    /// It went through.
    Committed,
    /// Another commit came first.
    Beaten,
    /// It failed.
    Failed,
}

/// What follows an attempt.
#[derive(Clone, Copy, Debug, PartialEq, Eq, Structural)]
pub enum RetryStep {
    /// It is done.
    Done,
    /// Wait so many milliseconds, load the table again, and try again.
    Again { millis: u64 },
    /// Report what came of it.
    GiveUp,
}

/// What follows the attempt numbered `attempt`, from 0.
pub fn commit_append_with_retry(
    namespace: &Vec<String>,
    name: &str,
    attempt: u32,
    outcome: AttemptOutcome,
) -> (r: RetryStep)
    ensures
        match outcome {
            AttemptOutcome::Committed => r is Done,
            AttemptOutcome::Beaten => if attempt < COMMIT_MAX_RETRIES {
                r matches RetryStep::Again { millis } && millis == backoff_millis(
                    namespace@,
                    name@,
                    attempt,
                )
            } else {
                r is GiveUp
            },
            AttemptOutcome::Failed => r is GiveUp,
        },
{
    match outcome {
        AttemptOutcome::Committed => RetryStep::Done,
        AttemptOutcome::Failed => RetryStep::GiveUp,
        AttemptOutcome::Beaten => {
            if attempt < COMMIT_MAX_RETRIES {
                RetryStep::Again { millis: commit_backoff(namespace, name, attempt) }
            } else {
                RetryStep::GiveUp
            }
        },
    }
}

} // verus!
