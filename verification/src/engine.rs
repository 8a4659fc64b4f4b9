//! The batch fetch/retry/collect engine.
//!
//! An ordered list of entry identifiers is partitioned into bounded batches;
//! each entry is handed to a fetch-and-parse adapter under a bounded retry
//! budget; successful records accumulate in a [`ResultSet`] and exhausted
//! failures are appended to an [`ErrorLog`].  Every entry that enters a
//! completed run resolves to exactly one of the two.

use vstd::prelude::*;

verus! {

/// How a failed attempt is classified once retries are exhausted.
#[derive(Debug, Clone, Copy, PartialEq, Eq, Structural)]
pub enum FailureKind {
    /// The adapter's network call could not complete.
    Transport,
    /// The response arrived but the expected structure was absent.
    StructuralParse,
}

/// The classified error an adapter reports for one attempt.
#[derive(Debug, Clone)]
pub enum AdapterError {
    /// The network call could not complete; retried.
    Transport(String),
    /// The expected structure was absent from the response; retried.
    StructuralParse(String),
    /// The entry could not be turned into a request target; never retried.
    IdentifierEncoding(String),
}

/// A transient failure: the retry executor spends budget on it.
pub open spec fn retryable(e: AdapterError) -> bool {
    e is Transport || e is StructuralParse
}

/// The classification a retryable adapter error is recorded under.
pub open spec fn kind_of(e: AdapterError) -> FailureKind
    recommends
        retryable(e),
{
    match e {
        AdapterError::Transport(_) => FailureKind::Transport,
        AdapterError::StructuralParse(_) => FailureKind::StructuralParse,
        AdapterError::IdentifierEncoding(_) => FailureKind::Transport,
    }
}

/// The message carried by an adapter error.
pub open spec fn message_of(e: AdapterError) -> Seq<char> {
    match e {
        AdapterError::Transport(m) => m@,
        AdapterError::StructuralParse(m) => m@,
        AdapterError::IdentifierEncoding(m) => m@,
    }
}

/// An entry whose retries were exhausted, with the reason of its last attempt.
#[derive(Debug, Clone)]
pub struct FailureRecord {
    pub entry: String,
    pub kind: FailureKind,
    pub message: String,
}

/// A failure of the run as a whole, as opposed to a per-entry failure.
#[derive(Debug, Clone)]
pub enum EngineError {
    /// The requested batch size was zero.
    Configuration(String),
    /// An entry could not be encoded as a request target; fail-fast.
    IdentifierEncoding { entry: String, message: String },
}

/// The batches a sequence falls into: groups of `m` in order, the last
/// possibly smaller, and nothing else.
pub open spec fn spec_partition<T>(s: Seq<T>, m: int) -> Seq<Seq<T>>
    decreases s.len(),
{
    if m < 1 || s.len() == 0 {
        Seq::empty()
    } else if s.len() <= m {
        seq![s]
    } else {
        seq![s.take(m)] + spec_partition(s.skip(m), m)
    }
}

/// The concatenation of a sequence of sequences, in order.
pub open spec fn concat_all<T>(bs: Seq<Seq<T>>) -> Seq<T>
    decreases bs.len(),
{
    if bs.len() == 0 {
        Seq::empty()
    } else {
        bs[0] + concat_all(bs.drop_first())
    }
}

/// The sequences a vector of vectors holds, as one ghost value.
pub open spec fn batches_view<T>(bs: Vec<Vec<T>>) -> Seq<Seq<T>> {
    bs@.map_values(|b: Vec<T>| b@)
}

/// Concatenating the batches of a partition reproduces the input exactly.
pub proof fn lemma_partition_concat<T>(s: Seq<T>, m: int)
    requires
        m >= 1,
    ensures
        concat_all(spec_partition(s, m)) == s,
    decreases s.len(),
{
    if s.len() == 0 {
        assert(concat_all(spec_partition(s, m)) =~= s);
    } else if s.len() <= m {
        assert(spec_partition(s, m) == seq![s]);
        assert(seq![s].drop_first() =~= Seq::<Seq<T>>::empty());
        assert(concat_all(seq![s]) == seq![s][0] + concat_all(seq![s].drop_first()));
        assert(concat_all(seq![s]) =~= s);
    } else {
        lemma_partition_concat(s.skip(m), m);
        let parts = spec_partition(s, m);
        assert(parts.drop_first() =~= spec_partition(s.skip(m), m));
        assert(parts[0] == s.take(m));
        assert(concat_all(parts) =~= s.take(m) + s.skip(m));
        assert(s.take(m) + s.skip(m) =~= s);
    }
}

/// A partition has `ceil(len / m)` batches.
pub proof fn lemma_partition_count<T>(s: Seq<T>, m: int)
    requires
        m >= 1,
    ensures
        spec_partition(s, m).len() == (s.len() + m - 1) / m,
    decreases s.len(),
{
    if s.len() == 0 {
        assert((0 + m - 1) / m == 0) by (nonlinear_arith)
            requires m >= 1;
    } else if s.len() <= m {
        assert((s.len() + m - 1) / m == 1) by (nonlinear_arith)
            requires m >= 1 && 1 <= s.len() <= m;
    } else {
        lemma_partition_count(s.skip(m), m);
        assert(s.skip(m).len() == s.len() - m);
        assert((s.len() - m + m - 1) / m + 1 == (s.len() + m - 1) / m) by (nonlinear_arith)
            requires m >= 1 && s.len() > m;
    }
}

/// Every batch but the last has exactly `m` entries; the last has between
/// 1 and `m`.
pub proof fn lemma_partition_sizes<T>(s: Seq<T>, m: int)
    requires
        m >= 1,
    ensures
        forall|j: int|
            0 <= j < spec_partition(s, m).len() - 1 ==> #[trigger] spec_partition(s, m)[j].len()
                == m,
        spec_partition(s, m).len() > 0 ==> 0 < spec_partition(s, m).last().len() <= m,
    decreases s.len(),
{
    if s.len() == 0 || s.len() <= m {
    } else {
        lemma_partition_sizes(s.skip(m), m);
        let parts = spec_partition(s, m);
        let rest = spec_partition(s.skip(m), m);
        assert(s.skip(m).len() > 0);
        assert(rest.len() > 0);
        assert(parts.last() == rest.last());
        assert(forall|j: int| 0 <= j < parts.len() - 1 ==> #[trigger] parts[j].len() == m) by {
            assert(forall|j: int| 1 <= j < parts.len() - 1 ==> parts[j] == #[trigger] rest[j - 1]);
        }
    }
}

/// Partitioning the same input with the same size always gives the same
/// batches: the result is a function of the arguments alone.
pub proof fn lemma_partition_idempotent<T>(s: Seq<T>, m: int, r1: Seq<Seq<T>>, r2: Seq<Seq<T>>)
    requires
        r1 == spec_partition(s, m),
        r2 == spec_partition(s, m),
    ensures
        r1 == r2,
{
}

/// Group an ordered list of entries into batches of at most `m`, in order.
///
/// Fails with a configuration error if and only if `m` is zero; otherwise
/// the batches are exactly `spec_partition` of the input.
pub fn partition<T>(entries: Vec<T>, m: usize) -> (r: Result<Vec<Vec<T>>, EngineError>)
    ensures
        match r {
            Ok(batches) => m >= 1 && batches_view(batches) == spec_partition(entries@, m as int),
            Err(e) => m == 0 && e is Configuration,
        },
{
    if m == 0 {
        return Err(EngineError::Configuration(String::from_str("batch size must be at least 1")));
    }
    let ghost orig = entries@;
    let mut rest = entries;
    let mut out: Vec<Vec<T>> = Vec::new();
    while rest.len() > 0
        invariant
            m >= 1,
            batches_view(out) + spec_partition(rest@, m as int) == spec_partition(orig, m as int),
        decreases rest@.len(),
    {
        let take = if rest.len() < m {
            rest.len()
        } else {
            m
        };
        let ghost rest0 = rest@;
        let ghost out0 = batches_view(out);
        let mut batch: Vec<T> = Vec::new();
        let mut j: usize = 0;
        while j < take
            invariant
                j <= take,
                take <= rest0.len(),
                batch@ == rest0.take(j as int),
                rest@ == rest0.skip(j as int),
            decreases take - j,
        {
            let ghost restj = rest@;
            let e = rest.remove(0);
            batch.push(e);
            proof {
                assert(batch@ =~= rest0.take(j + 1));
                assert(rest@ =~= rest0.skip(j + 1));
            }
            j += 1;
        }
        out.push(batch);
        proof {
            let mi = m as int;
            assert(rest@ =~= rest0.skip(take as int));
            if rest0.len() <= mi {
                assert(take == rest0.len());
                assert(batch@ =~= rest0);
                assert(spec_partition(rest0, mi) == seq![rest0]);
                assert(rest@.len() == 0);
                assert(spec_partition(rest@, mi) =~= Seq::<Seq<T>>::empty());
                assert(batches_view(out) =~= out0 + seq![rest0]);
                assert(batches_view(out) + spec_partition(rest@, mi) =~= out0 + spec_partition(
                    rest0,
                    mi,
                ));
            } else {
                assert(take == m);
                assert(batch@ == rest0.take(mi));
                assert(spec_partition(rest0, mi) == seq![rest0.take(mi)] + spec_partition(
                    rest0.skip(mi),
                    mi,
                ));
                assert(batches_view(out) =~= out0 + seq![rest0.take(mi)]);
                assert(batches_view(out) + spec_partition(rest@, mi) =~= out0 + spec_partition(
                    rest0,
                    mi,
                ));
            }
        }
    }
    proof {
        assert(spec_partition(rest@, m as int) =~= Seq::<Seq<T>>::empty());
        assert(batches_view(out) =~= batches_view(out) + spec_partition(rest@, m as int));
    }
    Ok(out)
}

/// The shared container successful records accumulate in during a run.
///
/// Each record is kept beside the entry it was produced for, so that a
/// completed run accounts for every input entry.
#[derive(Debug)]
pub struct ResultSet<R> {
    items: Vec<(String, R)>,
}

impl<R> View for ResultSet<R> {
    type V = Seq<(String, R)>;

    closed spec fn view(&self) -> Seq<(String, R)> {
        self.items@
    }
}

impl<R> ResultSet<R> {
    /// An empty collection.
    pub fn new() -> (r: ResultSet<R>)
        ensures
            r@ == Seq::<(String, R)>::empty(),
    {
        ResultSet { items: Vec::new() }
    }

    /// Append one successful record; nothing already collected is touched.
    pub fn append(&mut self, entry: String, record: R)
        ensures
            final(self)@ == old(self)@.push((entry, record)),
    {
        self.items.push((entry, record));
    }

    /// All records accumulated so far, in completion order.
    pub fn snapshot(&self) -> (r: &Vec<(String, R)>)
        ensures
            r@ == self@,
    {
        &self.items
    }

    /// How many records have been collected.
    pub fn len(&self) -> (n: usize)
        ensures
            n == self@.len(),
    {
        self.items.len()
    }
}

/// The append-only sink of entries whose retries were exhausted.
///
/// Appending never removes or reorders what is already recorded, so a log
/// carried across several runs accumulates the failures of all of them.
#[derive(Debug)]
pub struct ErrorLog {
    records: Vec<FailureRecord>,
}

impl View for ErrorLog {
    type V = Seq<FailureRecord>;

    closed spec fn view(&self) -> Seq<FailureRecord> {
        self.records@
    }
}

impl ErrorLog {
    /// An empty log.
    pub fn new() -> (r: ErrorLog)
        ensures
            r@ == Seq::<FailureRecord>::empty(),
    {
        ErrorLog { records: Vec::new() }
    }

    /// Append one failure record; everything already logged is preserved.
    pub fn append(&mut self, failure: FailureRecord)
        ensures
            final(self)@ == old(self)@.push(failure),
    {
        self.records.push(failure);
    }

    /// All failure records, oldest first.
    pub fn records(&self) -> (r: &Vec<FailureRecord>)
        ensures
            r@ == self@,
    {
        &self.records
    }

    /// How many failures have been logged.
    pub fn len(&self) -> (n: usize)
        ensures
            n == self@.len(),
    {
        self.records.len()
    }
}

/// Attempt `j` on `entry` can fail transiently: some retryable error is a
/// possible outcome of the adapter there.
pub open spec fn attempt_can_fail<R, F: Fn(String, u64) -> Result<R, AdapterError>>(
    f: F,
    entry: String,
    j: u64,
) -> bool {
    exists|err: AdapterError|
        retryable(err) && call_ensures(f, (entry, j), Err::<R, AdapterError>(err))
}

/// A failure record is a faithful account of `entry` exhausting a budget of
/// `max_attempts` against the adapter: every attempt before the last could
/// fail transiently, and the record carries the classification and message
/// of a possible last failure.
pub open spec fn exhaustion_valid<R, F: Fn(String, u64) -> Result<R, AdapterError>>(
    f: F,
    entry: String,
    max_attempts: u64,
    failure: FailureRecord,
) -> bool {
    &&& failure.entry == entry
    &&& forall|j: u64| 1 <= j < max_attempts ==> attempt_can_fail::<R, F>(f, entry, j)
    &&& exists|err: AdapterError|
        {
            &&& retryable(err)
            &&& call_ensures(f, (entry, max_attempts), Err::<R, AdapterError>(err))
            &&& failure.kind == kind_of(err)
            &&& failure.message@ == message_of(err)
        }
}

/// A record is a faithful success for `entry`: the adapter could return it
/// on some attempt within the budget, after possible transient failures.
pub open spec fn success_valid<R, F: Fn(String, u64) -> Result<R, AdapterError>>(
    f: F,
    entry: String,
    max_attempts: u64,
    record: R,
    attempts: u64,
) -> bool {
    &&& 1 <= attempts <= max_attempts
    &&& call_ensures(f, (entry, attempts), Ok::<R, AdapterError>(record))
    &&& forall|j: u64| 1 <= j < attempts ==> attempt_can_fail::<R, F>(f, entry, j)
}

/// The entries a result set pairs its records with, in order.
pub open spec fn result_entries<R>(items: Seq<(String, R)>) -> Seq<String> {
    items.map_values(|p: (String, R)| p.0)
}

/// The entries of a sequence of failure records, in order.
pub open spec fn failure_entries(fs: Seq<FailureRecord>) -> Seq<String> {
    fs.map_values(|fr: FailureRecord| fr.entry)
}

/// The elements of `s` at the positions marked true, in order.
pub open spec fn select_where<T>(s: Seq<T>, keep: Seq<bool>) -> Seq<T>
    decreases s.len(),
{
    if s.len() == 0 || keep.len() == 0 {
        Seq::empty()
    } else if keep[0] {
        seq![s[0]] + select_where(s.drop_first(), keep.drop_first())
    } else {
        select_where(s.drop_first(), keep.drop_first())
    }
}

/// Each position's mark, flipped.
pub open spec fn negate(bs: Seq<bool>) -> Seq<bool> {
    bs.map_values(|b: bool| !b)
}

/// The two sides of a completed run split the input exactly: some routing
/// of every entry to one side reproduces the collected entries and the
/// logged entries, each in processing order.
pub open spec fn routes_exactly<R>(
    entries: Seq<String>,
    succ: Seq<(String, R)>,
    fails: Seq<FailureRecord>,
) -> bool {
    exists|keep: Seq<bool>|
        {
            &&& keep.len() == entries.len()
            &&& result_entries(succ) == select_where(entries, keep)
            &&& failure_entries(fails) == select_where(entries, negate(keep))
        }
}

proof fn lemma_select_where_push<T>(s: Seq<T>, keep: Seq<bool>, e: T, b: bool)
    requires
        s.len() == keep.len(),
    ensures
        select_where(s.push(e), keep.push(b)) == if b {
            select_where(s, keep).push(e)
        } else {
            select_where(s, keep)
        },
    decreases s.len(),
{
    let s2 = s.push(e);
    let k2 = keep.push(b);
    if s.len() == 0 {
        assert(s2.drop_first() =~= Seq::<T>::empty());
        assert(k2.drop_first() =~= Seq::<bool>::empty());
        assert(select_where(Seq::<T>::empty(), Seq::<bool>::empty()) == Seq::<T>::empty());
        assert(s2[0] == e);
        assert(k2[0] == b);
        if b {
            assert(select_where(s2, k2) == seq![e] + Seq::<T>::empty());
            assert(seq![e] + Seq::<T>::empty() =~= select_where(s, keep).push(e));
        }
    } else {
        assert(s2.drop_first() =~= s.drop_first().push(e));
        assert(k2.drop_first() =~= keep.drop_first().push(b));
        assert(s2[0] == s[0]);
        assert(k2[0] == keep[0]);
        lemma_select_where_push(s.drop_first(), keep.drop_first(), e, b);
        let tail = select_where(s.drop_first(), keep.drop_first());
        if keep[0] {
            assert(select_where(s, keep) == seq![s[0]] + tail);
            if b {
                assert(select_where(s2, k2) == seq![s[0]] + tail.push(e));
                assert(seq![s[0]] + tail.push(e) =~= (seq![s[0]] + tail).push(e));
            } else {
                assert(select_where(s2, k2) == seq![s[0]] + tail);
            }
        } else {
            assert(select_where(s, keep) == tail);
            if b {
                assert(select_where(s2, k2) == tail.push(e));
            } else {
                assert(select_where(s2, k2) == tail);
            }
        }
    }
}

proof fn lemma_to_multiset_cons<T>(c: Seq<T>)
    requires
        c.len() > 0,
    ensures
        c.to_multiset() == c.drop_first().to_multiset().insert(c[0]),
{
    broadcast use vstd::seq_lib::group_to_multiset_ensures;
    broadcast use vstd::multiset::group_multiset_axioms;

    assert(c.remove(0) =~= c.drop_first());
    assert(c.remove(0).to_multiset() =~= c.to_multiset().remove(c[0]));
    assert(c.contains(c[0]));
    assert(c.to_multiset().count(c[0]) > 0);
    assert(c.drop_first().to_multiset().insert(c[0]) =~= c.to_multiset());
}

proof fn lemma_select_where_complete<T>(s: Seq<T>, keep: Seq<bool>)
    requires
        keep.len() == s.len(),
    ensures
        select_where(s, keep).len() + select_where(s, negate(keep)).len() == s.len(),
        select_where(s, keep).to_multiset().add(select_where(s, negate(keep)).to_multiset())
            == s.to_multiset(),
    decreases s.len(),
{
    broadcast use vstd::seq_lib::group_to_multiset_ensures;
    broadcast use vstd::multiset::group_multiset_axioms;

    let sel = select_where(s, keep);
    let nsel = select_where(s, negate(keep));
    if s.len() == 0 {
        assert(sel.to_multiset().add(nsel.to_multiset()) =~= s.to_multiset());
    } else {
        let st = s.drop_first();
        let kt = keep.drop_first();
        assert(negate(keep).drop_first() =~= negate(kt));
        assert(negate(keep)[0] == !keep[0]);
        lemma_select_where_complete(st, kt);
        let sela = select_where(st, kt);
        let nsela = select_where(st, negate(kt));
        lemma_to_multiset_cons(s);
        if keep[0] {
            assert(sel == seq![s[0]] + sela);
            assert(nsel == nsela);
            assert(sel.drop_first() =~= sela);
            lemma_to_multiset_cons(sel);
            assert(sel.to_multiset().add(nsel.to_multiset()) =~= sela.to_multiset().add(
                nsela.to_multiset(),
            ).insert(s[0]));
        } else {
            assert(nsel == seq![s[0]] + nsela);
            assert(sel == sela);
            assert(nsel.drop_first() =~= nsela);
            lemma_to_multiset_cons(nsel);
            assert(sel.to_multiset().add(nsel.to_multiset()) =~= sela.to_multiset().add(
                nsela.to_multiset(),
            ).insert(s[0]));
        }
        assert(sel.to_multiset().add(nsel.to_multiset()) =~= s.to_multiset());
    }
}

/// Accounting completeness: when the two sides of a completed run split
/// the input exactly, every input entry is accounted for exactly once —
/// the sizes of the two sides sum to the input length, and the entries on
/// the two sides taken together are exactly the input entries.
pub proof fn lemma_accounting_complete<R>(
    entries: Seq<String>,
    succ: Seq<(String, R)>,
    fails: Seq<FailureRecord>,
)
    requires
        routes_exactly(entries, succ, fails),
    ensures
        succ.len() + fails.len() == entries.len(),
        result_entries(succ).to_multiset().add(failure_entries(fails).to_multiset())
            == entries.to_multiset(),
{
    let keep = choose|keep: Seq<bool>|
        {
            &&& keep.len() == entries.len()
            &&& result_entries(succ) == select_where(entries, keep)
            &&& failure_entries(fails) == select_where(entries, negate(keep))
        };
    lemma_select_where_complete(entries, keep);
}

/// Error-sink durability: a log written by two consecutive runs still
/// begins with what it held before the first, followed by the first run's
/// failures, followed by the second run's.  Nothing is overwritten.
pub proof fn lemma_error_log_accumulates(
    l0: Seq<FailureRecord>,
    l1: Seq<FailureRecord>,
    l2: Seq<FailureRecord>,
)
    requires
        l0.is_prefix_of(l1),
        l1.is_prefix_of(l2),
    ensures
        l0.is_prefix_of(l2),
        l2 == l0 + l1.skip(l0.len() as int) + l2.skip(l1.len() as int),
{
    assert(l2 =~= l0 + l1.skip(l0.len() as int) + l2.skip(l1.len() as int));
}

/// Some attempt within the budget can report that `entry` has no
/// well-formed request target, carrying `message`.
pub open spec fn encoding_failure_possible<R, F: Fn(String, u64) -> Result<R, AdapterError>>(
    f: F,
    entry: String,
    max_attempts: u64,
    message: String,
) -> bool {
    exists|k: u64|
        1 <= k <= max_attempts && call_ensures(
            f,
            (entry, k),
            Err::<R, AdapterError>(AdapterError::IdentifierEncoding(message)),
        )
}

/// Some attempt count within the budget makes `record` a faithful
/// success for `entry`.
pub open spec fn some_success_valid<R, F: Fn(String, u64) -> Result<R, AdapterError>>(
    f: F,
    entry: String,
    max_attempts: u64,
    record: R,
) -> bool {
    exists|att: u64| success_valid::<R, F>(f, entry, max_attempts, record, att)
}

/// How one entry resolved under the retry executor.
#[derive(Debug)]
pub enum ExecOutcome<R> {
    /// The adapter succeeded on the recorded attempt.
    Success { record: R, attempts: u64 },
    /// Every allowed attempt failed transiently.
    Exhausted { failure: FailureRecord, attempts: u64 },
}

/// Run the adapter on one entry under a bounded retry budget.
///
/// Attempts are numbered from 1.  The first success returns immediately;
/// a retryable failure on the final allowed attempt yields a failure
/// record; an identifier-encoding failure is never retried and aborts with
/// a run-level error.
pub fn execute<R, F: Fn(String, u64) -> Result<R, AdapterError> + Copy>(
    entry: &String,
    f: F,
    max_attempts: u64,
) -> (r: Result<ExecOutcome<R>, EngineError>)
    requires
        max_attempts >= 1,
        forall|k: u64| 1 <= k <= max_attempts ==> call_requires(f, (*entry, k)),
    ensures
        match r {
            Ok(outcome) => match outcome {
                ExecOutcome::Success { record, attempts } => success_valid(
                    f,
                    *entry,
                    max_attempts,
                    record,
                    attempts,
                ),
                ExecOutcome::Exhausted { failure, attempts } => attempts == max_attempts
                    && exhaustion_valid(f, *entry, max_attempts, failure),
            },
            Err(e) => e matches EngineError::IdentifierEncoding { entry: en, message }
                && en == *entry && encoding_failure_possible::<R, F>(
                f,
                *entry,
                max_attempts,
                message,
            ),
        },
        // Retry effectiveness: an adapter that can only fail transiently on
        // attempt 1 and can only succeed on attempt 2 ends in success
        // whenever at least one retry is allowed.
        (max_attempts >= 2 && (forall|y: Result<R, AdapterError>|
            call_ensures(f, (*entry, 1u64), y) ==> (y matches Err(e) && retryable(e))) && (
        forall|y: Result<R, AdapterError>| call_ensures(f, (*entry, 2u64), y) ==> y is Ok))
            ==> r matches Ok(ExecOutcome::Success { .. }),
        // Retry exhaustion: an adapter that can only fail transiently is
        // invoked exactly `max_attempts` times and ends exhausted.
        (forall|k: u64, y: Result<R, AdapterError>|
            1 <= k <= max_attempts && call_ensures(f, (*entry, k), y) ==> (y matches Err(e)
                && retryable(e))) ==> (r matches Ok(ExecOutcome::Exhausted { attempts, .. })
            && attempts == max_attempts),
{
    let mut k: u64 = 1;
    loop
        invariant
            max_attempts >= 1,
            1 <= k <= max_attempts,
            forall|j: u64| 1 <= j <= max_attempts ==> call_requires(f, (*entry, j)),
            forall|j: u64| 1 <= j < k ==> attempt_can_fail::<R, F>(f, *entry, j),
        decreases max_attempts - k,
    {
        let attempt_entry = entry.clone();
        match f(attempt_entry, k) {
            Ok(record) => {
                return Ok(ExecOutcome::Success { record, attempts: k });
            },
            Err(err) => {
                match err {
                    AdapterError::IdentifierEncoding(message) => {
                        proof {
                            let y = Err::<R, AdapterError>(AdapterError::IdentifierEncoding(
                                message,
                            ));
                            assert(call_ensures(f, (*entry, k), y));
                            assert(encoding_failure_possible::<R, F>(
                                f,
                                *entry,
                                max_attempts,
                                message,
                            ));
                            if k >= 3 {
                                assert(attempt_can_fail::<R, F>(f, *entry, 2u64));
                            }
                        }
                        return Err(
                            EngineError::IdentifierEncoding { entry: entry.clone(), message },
                        );
                    },
                    AdapterError::Transport(message) => {
                        proof {
                            assert(attempt_can_fail::<R, F>(f, *entry, k)) by {
                                assert(retryable(AdapterError::Transport(message)));
                            }
                        }
                        if k == max_attempts {
                            proof {
                                let werr = AdapterError::Transport(message);
                                assert(retryable(werr));
                                assert(call_ensures(
                                    f,
                                    (*entry, max_attempts),
                                    Err::<R, AdapterError>(werr),
                                ));
                                assert(kind_of(werr) == FailureKind::Transport);
                                assert(message_of(werr) == message@);
                                if max_attempts > 2 {
                                    assert(attempt_can_fail::<R, F>(f, *entry, 2u64));
                                }
                            }
                            return Ok(
                                ExecOutcome::Exhausted {
                                    failure: FailureRecord {
                                        entry: entry.clone(),
                                        kind: FailureKind::Transport,
                                        message,
                                    },
                                    attempts: k,
                                },
                            );
                        }
                        k = k + 1;
                    },
                    AdapterError::StructuralParse(message) => {
                        proof {
                            assert(attempt_can_fail::<R, F>(f, *entry, k)) by {
                                assert(retryable(AdapterError::StructuralParse(message)));
                            }
                        }
                        if k == max_attempts {
                            proof {
                                let werr = AdapterError::StructuralParse(message);
                                assert(retryable(werr));
                                assert(call_ensures(
                                    f,
                                    (*entry, max_attempts),
                                    Err::<R, AdapterError>(werr),
                                ));
                                assert(kind_of(werr) == FailureKind::StructuralParse);
                                assert(message_of(werr) == message@);
                                if max_attempts > 2 {
                                    assert(attempt_can_fail::<R, F>(f, *entry, 2u64));
                                }
                            }
                            return Ok(
                                ExecOutcome::Exhausted {
                                    failure: FailureRecord {
                                        entry: entry.clone(),
                                        kind: FailureKind::StructuralParse,
                                        message,
                                    },
                                    attempts: k,
                                },
                            );
                        }
                        k = k + 1;
                    },
                }
            },
        }
    }
}

/// Drive a whole run: partition the entries into batches of `m`, resolve
/// every entry of every batch through the retry executor, collect successes,
/// and append exhausted failures to `log`.
///
/// A batch-size of zero fails with a configuration error; an entry without
/// a well-formed request target aborts the run.  Otherwise every input
/// entry ends in exactly one of the returned result set and the appended
/// tail of `log`, in processing order; nothing already in `log` is touched.
#[verifier::loop_isolation(false)]
pub fn run<R, F: Fn(String, u64) -> Result<R, AdapterError> + Copy>(
    entries: Vec<String>,
    f: F,
    m: usize,
    max_attempts: u64,
    log: &mut ErrorLog,
) -> (r: Result<ResultSet<R>, EngineError>)
    requires
        max_attempts >= 1,
        forall|i: int, k: u64|
            0 <= i < entries@.len() && 1 <= k <= max_attempts ==> call_requires(
                f,
                (entries@[i], k),
            ),
    ensures
        old(log)@.is_prefix_of(final(log)@),
        match r {
            Ok(rs) => {
                &&& m >= 1
                &&& routes_exactly(entries@, rs@, final(log)@.skip(old(log)@.len() as int))
                &&& forall|j: int|
                    0 <= j < rs@.len() ==> #[trigger] some_success_valid::<R, F>(
                        f,
                        rs@[j].0,
                        max_attempts,
                        rs@[j].1,
                    )
                &&& forall|j: int|
                    old(log)@.len() <= j < final(log)@.len() ==> exhaustion_valid::<R, F>(
                        f,
                        final(log)@[j].entry,
                        max_attempts,
                        final(log)@[j],
                    )
            },
            Err(e) => {
                &&& (e is Configuration <==> m == 0)
                &&& (e matches EngineError::IdentifierEncoding { entry: en, message } ==> m >= 1
                    && (exists|i: int| 0 <= i < entries@.len() && en == entries@[i])
                    && encoding_failure_possible::<R, F>(f, en, max_attempts, message))
            },
        },
        // A run is owed success whenever the configuration is valid and no
        // adapter outcome within the budget is an encoding failure.
        (m >= 1 && (forall|i: int, k: u64, y: Result<R, AdapterError>|
            0 <= i < entries@.len() && 1 <= k <= max_attempts && call_ensures(
                f,
                (entries@[i], k),
                y,
            ) ==> !(y matches Err(AdapterError::IdentifierEncoding(_))))) ==> r is Ok,
{
    let ghost all = entries@;
    let ghost log0 = log@;
    let batches = match partition(entries, m) {
        Ok(b) => b,
        Err(e) => {
            return Err(e);
        },
    };
    let ghost bv = batches_view(batches);
    proof {
        lemma_partition_concat(all, m as int);
    }
    let mut rs: ResultSet<R> = ResultSet::new();
    let ghost mut done: Seq<String> = Seq::empty();
    let ghost mut keep: Seq<bool> = Seq::empty();
    proof {
        assert(bv.skip(0) =~= bv);
        assert(done + concat_all(bv) =~= concat_all(bv));
        assert(result_entries(rs@) =~= Seq::<String>::empty());
        assert(select_where(done, keep) == Seq::<String>::empty());
        assert(negate(keep) =~= Seq::<bool>::empty());
        assert(log@.skip(log0.len() as int) =~= Seq::<FailureRecord>::empty());
        assert(failure_entries(log@.skip(log0.len() as int)) =~= Seq::<String>::empty());
        assert(log0.is_prefix_of(log@)) by {
            assert(log0 =~= log@.take(log0.len() as int));
        }
    }
    let mut bi: usize = 0;
    while bi < batches.len()
        invariant
            m >= 1,
            max_attempts >= 1,
            bi <= batches.len(),
            bv == batches_view(batches),
            forall|i: int, k: u64|
                0 <= i < all.len() && 1 <= k <= max_attempts ==> call_requires(f, (all[i], k)),
            done + concat_all(bv.skip(bi as int)) == all,
            keep.len() == done.len(),
            result_entries(rs@) == select_where(done, keep),
            failure_entries(log@.skip(log0.len() as int)) == select_where(done, negate(keep)),
            log0.is_prefix_of(log@),
            forall|j: int|
                0 <= j < rs@.len() ==> #[trigger] some_success_valid::<R, F>(
                    f,
                    rs@[j].0,
                    max_attempts,
                    rs@[j].1,
                ),
            forall|j: int|
                log0.len() <= j < log@.len() ==> exhaustion_valid::<R, F>(
                    f,
                    log@[j].entry,
                    max_attempts,
                    log@[j],
                ),
        decreases batches.len() - bi,
    {
        let batch = &batches[bi];
        let ghost cur = batch@;
        let ghost done0 = done;
        proof {
            assert(bv.skip(bi as int).len() > 0);
            assert(bv.skip(bi as int)[0] == cur);
            assert(bv.skip(bi as int).drop_first() =~= bv.skip(bi as int + 1));
            assert(concat_all(bv.skip(bi as int)) == cur + concat_all(bv.skip(bi as int + 1)));
            assert(done0 + cur.take(0) =~= done0);
            assert(cur.skip(0) =~= cur);
            assert((done0 + cur) + concat_all(bv.skip(bi as int + 1)) =~= done0 + (cur
                + concat_all(bv.skip(bi as int + 1))));
        }
        let mut j: usize = 0;
        while j < batch.len()
            invariant
                m >= 1,
                max_attempts >= 1,
                bi < batches.len(),
                bv == batches_view(batches),
                cur == batches@[bi as int]@,
                batch == &batches[bi as int],
                forall|i: int, k: u64|
                    0 <= i < all.len() && 1 <= k <= max_attempts ==> call_requires(f, (all[i], k)),
                j <= cur.len(),
                done == done0 + cur.take(j as int),
                done + cur.skip(j as int) + concat_all(bv.skip(bi as int + 1)) == all,
                keep.len() == done.len(),
                result_entries(rs@) == select_where(done, keep),
                failure_entries(log@.skip(log0.len() as int)) == select_where(done, negate(keep)),
                log0.is_prefix_of(log@),
                forall|jj: int|
                    0 <= jj < rs@.len() ==> #[trigger] some_success_valid::<R, F>(
                        f,
                        rs@[jj].0,
                        max_attempts,
                        rs@[jj].1,
                    ),
                forall|jj: int|
                    log0.len() <= jj < log@.len() ==> exhaustion_valid::<R, F>(
                        f,
                        log@[jj].entry,
                        max_attempts,
                        log@[jj],
                    ),
            decreases batch.len() - j,
        {
            proof {
                assert(cur.skip(j as int).len() > 0);
                assert(all[done.len() as int] == cur.skip(j as int)[0]);
                assert(cur.skip(j as int)[0] == cur[j as int]);
                assert(0 <= done.len() < all.len());
                assert(forall|k: u64|
                    1 <= k <= max_attempts ==> call_requires(f, (cur[j as int], k)));
            }
            let entry_ref = &batch[j];
            match execute(entry_ref, f, max_attempts) {
                Ok(ExecOutcome::Success { record, .. }) => {
                    let owned = entry_ref.clone();
                    rs.append(owned, record);
                    proof {
                        let done_old = done;
                        let keep_old = keep;
                        lemma_select_where_push(done_old, keep_old, cur[j as int], true);
                        lemma_select_where_push(done_old, negate(keep_old), cur[j as int], false);
                        done = done_old.push(cur[j as int]);
                        keep = keep_old.push(true);
                        assert(negate(keep) =~= negate(keep_old).push(false));
                        assert(result_entries(rs@) =~= select_where(done_old, keep_old).push(
                            cur[j as int],
                        ));
                        assert(result_entries(rs@) == select_where(done, keep));
                        assert(failure_entries(log@.skip(log0.len() as int)) == select_where(
                            done,
                            negate(keep),
                        ));
                        assert(some_success_valid::<R, F>(f, cur[j as int], max_attempts, record));
                    }
                },
                Ok(ExecOutcome::Exhausted { failure, .. }) => {
                    let ghost fent = failure.entry;
                    log.append(failure);
                    proof {
                        let done_old = done;
                        let keep_old = keep;
                        lemma_select_where_push(done_old, keep_old, cur[j as int], false);
                        lemma_select_where_push(done_old, negate(keep_old), cur[j as int], true);
                        done = done_old.push(cur[j as int]);
                        keep = keep_old.push(false);
                        assert(negate(keep) =~= negate(keep_old).push(true));
                        assert(fent == cur[j as int]);
                        assert(log@.skip(log0.len() as int) =~= log@.drop_last().skip(
                            log0.len() as int,
                        ).push(log@.last()));
                        assert(failure_entries(log@.skip(log0.len() as int)) =~= select_where(
                            done_old,
                            negate(keep_old),
                        ).push(cur[j as int]));
                        assert(failure_entries(log@.skip(log0.len() as int)) == select_where(
                            done,
                            negate(keep),
                        ));
                        assert(result_entries(rs@) == select_where(done, keep));
                        assert(log0.is_prefix_of(log@)) by {
                            assert(log0 =~= log@.take(log0.len() as int));
                        }
                    }
                },
                Err(e) => {
                    proof {
                        assert(0 <= done.len() < all.len() && all[done.len() as int] == cur[j as int]);
                    }
                    return Err(e);
                },
            }
            proof {
                assert(done == done0 + cur.take(j as int + 1)) by {
                    assert(done0 + cur.take(j as int + 1) =~= (done0 + cur.take(j as int)).push(
                        cur[j as int],
                    ));
                }
                assert(done + cur.skip(j as int + 1) + concat_all(bv.skip(bi as int + 1)) =~= all);
            }
            j += 1;
        }
        proof {
            assert(cur.skip(j as int) =~= Seq::<String>::empty());
            assert(done + concat_all(bv.skip(bi as int + 1)) =~= all);
        }
        bi += 1;
    }
    proof {
        assert(bv.skip(bi as int) =~= Seq::<Seq<String>>::empty());
        assert(concat_all(bv.skip(bi as int)) =~= Seq::<String>::empty());
        assert(done =~= all);
        assert(keep.len() == all.len());
        assert(result_entries(rs@) == select_where(all, keep));
        assert(failure_entries(log@.skip(log0.len() as int)) == select_where(all, negate(keep)));
        assert(routes_exactly(all, rs@, log@.skip(log0.len() as int)));
    }
    Ok(rs)
}

} // verus!
