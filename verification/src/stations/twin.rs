//! The twin of final test: the same dispositions without a transaction, and a
//! commit only every so many batches.

use vstd::prelude::*;
use vstd::string::*;

use super::final_test::{
    disposition_record, make_disposition, make_move, move_record, produced_metric, unit_of, Unit,
};
use super::instance::{last_time, time_of_last};
use crate::json::{Fields, Json, JsonView};
use crate::kafka::{
    commit_failed, lemma_produce_views_push, metric, metric_view, nothing_stored, produce_views,
    ConsumedRecord, KafkaError, PartitionCommit, ProduceRecord, ProduceView,
};
use crate::text::{parse_usize, text_eq, usize_of};

verus! {

broadcast use vstd::string::group_string_axioms;

// ---------------------------------------------------------------------------
// Set-up

/// The number that a setting gives: what it says where that is a number from
/// one up, and otherwise a default; at most `max`.
pub open spec fn setting_of(setting: Option<Seq<char>>, default: usize, max: usize) -> usize {
    let n = match setting {
        Some(s) => match usize_of(s) {
            Some(n) => if n > 0 {
                n
            } else {
                default
            },
            None => default,
        },
        None => default,
    };
    if n < max {
        n
    } else {
        max
    }
}

/// The number that a setting gives.
pub fn env_usize(setting: Option<&str>, default: usize, max: usize) -> (r: usize)
    ensures
        r == setting_of(
            match setting {
                Some(s) => Some(s@),
                None => None,
            },
            default,
            max,
        ),
{
    let n: usize = match setting {
        Some(s) => match parse_usize(s) {
            Some(n) => if n > 0 {
                n
            } else {
                default
            },
            None => default,
        },
        None => default,
    };
    if n < max {
        n
    } else {
        max
    }
}

// ---------------------------------------------------------------------------
// Outputs

/// What a batch comes to.
pub struct Outputs {
    pub dispositions: Vec<ProduceRecord>,
    pub moves: Vec<ProduceRecord>,
    pub malformed: u64,
}

/// What the outputs of a batch stand for.
#[verifier::ext_equal]
pub struct OutputsView {
    pub dispositions: Seq<ProduceView>,
    pub moves: Seq<ProduceView>,
    pub malformed: u64,
}

impl View for Outputs {
    type V = OutputsView;

    open spec fn view(&self) -> OutputsView {
        OutputsView {
            dispositions: produce_views(self.dispositions@),
            moves: produce_views(self.moves@),
            malformed: self.malformed,
        }
    }
}

/// The outputs of a batch: one disposition and one move per unit, in the
/// order of the records. A record that is no unit is counted and left out.
pub open spec fn transformed(batch: Seq<ConsumedRecord>, decoded: Seq<Option<Unit>>) -> OutputsView
    decreases batch.len(),
{
    if batch.len() == 0 {
        OutputsView { dispositions: Seq::empty(), moves: Seq::empty(), malformed: 0 }
    } else {
        let out = transformed(batch.drop_last(), decoded);
        match unit_of(batch.last(), decoded[batch.len() - 1]) {
            Some(u) => OutputsView {
                dispositions: out.dispositions.push(disposition_record(u, batch.last())),
                moves: out.moves.push(move_record(u.unit@, u.lot@, u.bin)),
                ..out
            },
            None => OutputsView { malformed: out.malformed.wrapping_add(1), ..out },
        }
    }
}

/// The outputs of a batch, given what each record's value decodes as.
pub fn transform(batch: &Vec<ConsumedRecord>, decoded: &Vec<Option<Unit>>) -> (out: Outputs)
    requires
        decoded@.len() == batch@.len(),
    ensures
        out@ == transformed(batch@, decoded@),
{
    let mut out = Outputs { dispositions: Vec::new(), moves: Vec::new(), malformed: 0 };
    let mut i: usize = 0;
    assert(batch@.take(0) =~= Seq::empty());
    assert(out@ =~= transformed(batch@.take(0), decoded@));
    while i < batch.len()
        invariant
            i <= batch@.len(),
            decoded@.len() == batch@.len(),
            out@ == transformed(batch@.take(i as int), decoded@),
        decreases batch@.len() - i,
    {
        proof {
            assert(batch@.take(i + 1).drop_last() =~= batch@.take(i as int));
            assert(batch@.take(i + 1).last() == batch@[i as int]);
        }
        let rec = &batch[i];
        if rec.value.is_some() && decoded[i].is_some() {
            match &decoded[i] {
                Some(u) => {
                    let d = make_disposition(u, rec);
                    let m = make_move(u.unit.as_str(), u.lot.as_str(), u.bin);
                    proof {
                        lemma_produce_views_push(out.dispositions@, d);
                        lemma_produce_views_push(out.moves@, m);
                    }
                    out.dispositions.push(d);
                    out.moves.push(m);
                },
                None => {},
            }
        } else {
            out.malformed = out.malformed.wrapping_add(1);
        }
        assert(out@ =~= transformed(batch@.take(i + 1), decoded@));
        i = i + 1;
    }
    assert(batch@.take(batch@.len() as int) =~= batch@);
    out
}

// ---------------------------------------------------------------------------
// Commits

/// Whether a batch is one to commit behind: the last of so many.
pub open spec fn commits(since: usize, every: usize) -> bool {
    since >= every
}

/// The metrics of a batch of `n` records whose outputs are sent, with the
/// number of batches since the last commit.
pub open spec fn batch_metrics(
    n: nat,
    dispositions: u64,
    malformed: u64,
    ts: Option<i64>,
    out_topic: Seq<char>,
    moves_topic: Seq<char>,
    since: usize,
    every: usize,
) -> Seq<ProduceView> {
    let sent = JsonView::Uint(dispositions);
    let a = seq![
        metric_view(
            "st06twin"@,
            "consumed"@,
            ts,
            Map::empty().insert("n"@, JsonView::Uint(n as u64)).insert(
                "malformed"@,
                JsonView::Uint(malformed),
            ),
        ),
        metric_view(
            "st06twin"@,
            "produced"@,
            ts,
            Map::empty().insert("topic"@, JsonView::Str(out_topic)).insert("n"@, sent),
        ),
        metric_view(
            "st06twin"@,
            "produced"@,
            ts,
            Map::empty().insert("topic"@, JsonView::Str(moves_topic)).insert("n"@, sent),
        ),
    ];
    if commits(since, every) {
        a.push(
            metric_view(
                "st06twin"@,
                "commit"@,
                ts,
                Map::empty().insert("batches"@, JsonView::Uint(since as u64)),
            ),
        )
    } else {
        a
    }
}

/// Ends a batch whose outputs are sent, so many dispositions and as many
/// moves, with so many records left out: the metrics, and whether to commit.
/// `since` is the number of batches since the last commit, this one among
/// them.
pub fn report_batch(
    batch: &Vec<ConsumedRecord>,
    dispositions: u64,
    malformed: u64,
    out_topic: &str,
    moves_topic: &str,
    since: usize,
    every: usize,
) -> (r: (Vec<ProduceRecord>, bool))
    ensures
        r.1 == commits(since, every),
        produce_views(r.0@) == batch_metrics(
            batch@.len(),
            dispositions,
            malformed,
            last_time(batch@),
            out_topic@,
            moves_topic@,
            since,
            every,
        ),
{
    let ts = time_of_last(batch);
    let mut f = Fields::new();
    f.put("n", Json::Uint(batch.len() as u64));
    f.put("malformed", Json::Uint(malformed));
    let c = metric("st06twin", "consumed", ts, &f);
    let d = produced_metric("st06twin", ts, out_topic, dispositions);
    let m = produced_metric("st06twin", ts, moves_topic, dispositions);
    let mut r: Vec<ProduceRecord> = Vec::new();
    r.push(c);
    r.push(d);
    r.push(m);
    assert(produce_views(r@) =~= seq![c@, d@, m@]);
    let committing = since >= every;
    if committing {
        let mut g = Fields::new();
        g.put("batches", Json::Uint(since as u64));
        let k = metric("st06twin", "commit", ts, &g);
        proof {
            lemma_produce_views_push(r@, k);
        }
        r.push(k);
    }
    (r, committing)
}

/// Whether the result at `i` is the first of a partition that tells an error.
pub open spec fn is_first_error(results: Seq<PartitionCommit>, i: int) -> bool {
    &&& 0 <= i < results.len()
    &&& results[i].error is Some
    &&& forall|j: int| 0 <= j < i ==> (#[trigger] results[j]).error is None
}

/// Whether a commit came to what is said of it: that nothing was stored is no
/// failure, and any other error ends the session. Where the commit of a
/// partition failed, the reason names the first error that a partition tells.
pub open spec fn is_commit_outcome(
    r: Result<Vec<PartitionCommit>, KafkaError>,
    out: Result<(), String>,
) -> bool {
    match r {
        Err(e) => match out {
            Ok(()) => nothing_stored(e.code@),
            Err(why) => !nothing_stored(e.code@) && why@ == "commit: "@ + e.message@,
        },
        Ok(results) => match out {
            Ok(()) => forall|i: int|
                0 <= i < results@.len() ==> !commit_failed(#[trigger] results@[i]),
            Err(why) => {
                &&& exists|i: int| 0 <= i < results@.len() && commit_failed(#[trigger] results@[i])
                &&& exists|i: int|
                    is_first_error(results@, i) && why@ == "commit failed on a partition: Some("@
                        + results@[i].error->0@ + ")"@
            },
        },
    }
}

/// What became of a commit.
pub fn judge_commit(r: &Result<Vec<PartitionCommit>, KafkaError>) -> (out: Result<(), String>)
    ensures
        is_commit_outcome(*r, out),
{
    match r {
        Err(e) => {
            if text_eq(e.code.as_str(), "NoOffset") {
                Ok(())
            } else {
                let mut t = "commit: ".to_owned();
                t.append(e.message.as_str());
                Err(t)
            }
        },
        Ok(results) => {
            let mut first: Option<&String> = None;
            let mut failed = false;
            let ghost mut place: int = 0;
            let mut i: usize = 0;
            while i < results.len()
                invariant
                    i <= results@.len(),
                    failed <==> exists|j: int| 0 <= j < i && commit_failed(#[trigger] results@[j]),
                    failed ==> first is Some,
                    first is None ==> forall|j: int|
                        0 <= j < i ==> (#[trigger] results@[j]).error is None,
                    first matches Some(code) ==> is_first_error(results@, place)
                        && results@[place].error == Some(*code),
                decreases results@.len() - i,
            {
                match &results[i].error {
                    Some(code) => {
                        if first.is_none() {
                            first = Some(code);
                            proof {
                                place = i as int;
                            }
                        }
                        if !text_eq(code.as_str(), "NoOffset") {
                            failed = true;
                        }
                    },
                    None => {},
                }
                i = i + 1;
            }
            match first {
                Some(code) if failed => {
                    let mut t = "commit failed on a partition: Some(".to_owned();
                    t.append(code.as_str());
                    t.append(")");
                    Err(t)
                },
                _ => Ok(()),
            }
        },
    }
}

// ---------------------------------------------------------------------------
// The order of a batch

/// What is to be done next with a batch.
pub enum Step {
    SendDispositions,
    SendMoves,
    /// The metrics are to be sent, whatever comes of it.
    Report,
    /// The stored positions are to be committed.
    Commit,
    /// The batch is over; so many are not committed.
    Done(usize),
    /// The service is to exit, for this reason.
    Exit(String),
}

/// What is to be done next, after what came of a step. `since` is the number
/// of batches since the last commit, this one among them.
pub open spec fn next_step(
    step: Step,
    result: Result<(), String>,
    since: usize,
    every: usize,
) -> Step {
    match step {
        Step::SendDispositions => match result {
            Ok(()) => Step::SendMoves,
            Err(why) => Step::Exit(why),
        },
        Step::SendMoves => match result {
            Ok(()) => Step::Report,
            Err(why) => Step::Exit(why),
        },
        Step::Report => if commits(since, every) {
            Step::Commit
        } else {
            Step::Done(since)
        },
        Step::Commit => match result {
            Ok(()) => Step::Done(0),
            Err(why) => Step::Exit(why),
        },
        Step::Done(n) => Step::Done(n),
        Step::Exit(why) => Step::Exit(why),
    }
}

/// What is to be done next, after what came of a step.
pub fn advance(step: Step, result: Result<(), String>, since: usize, every: usize) -> (r: Step)
    ensures
        r == next_step(step, result, since, every),
{
    match step {
        Step::SendDispositions => match result {
            Ok(()) => Step::SendMoves,
            Err(why) => Step::Exit(why),
        },
        Step::SendMoves => match result {
            Ok(()) => Step::Report,
            Err(why) => Step::Exit(why),
        },
        Step::Report => {
            if since >= every {
                Step::Commit
            } else {
                Step::Done(since)
            }
        },
        Step::Commit => match result {
            Ok(()) => Step::Done(0),
            Err(why) => Step::Exit(why),
        },
        Step::Done(n) => Step::Done(n),
        Step::Exit(why) => Step::Exit(why),
    }
}

// ---------------------------------------------------------------------------
// Laws

/// The batches since the last commit, behind a batch: none where it was
/// committed behind.
pub open spec fn since_after(since: usize, every: usize) -> usize {
    if commits((since + 1) as usize, every) {
        0
    } else {
        (since + 1) as usize
    }
}

/// The batches since the last commit, behind `n` batches from a start.
pub open spec fn since_behind(n: nat, every: usize) -> usize
    decreases n,
{
    if n == 0 {
        0
    } else {
        since_after(since_behind((n - 1) as nat, every), every)
    }
}

/// The twin commits behind every `every`th batch and no other, so that a
/// restart replays fewer than `every` batches that were finished.
pub proof fn commits_come_every_so_many_batches(n: nat, every: usize)
    requires
        every > 0,
    ensures
        since_behind(n, every) == n % (every as nat),
        n > 0 ==> (commits((since_behind((n - 1) as nat, every) + 1) as usize, every) <==> n % (
        every as nat) == 0),
    decreases n,
{
    vstd::arithmetic::div_mod::lemma_small_mod(0, every as nat);
    if n > 0 {
        commits_come_every_so_many_batches((n - 1) as nat, every);
        let e = every as int;
        let m = n as int;
        if (m - 1) % e == e - 1 {
            assert(m % e == 0) by (nonlinear_arith)
                requires
                    e > 0,
                    (m - 1) % e == e - 1,
            ;
        } else {
            assert(m % e == (m - 1) % e + 1) by (nonlinear_arith)
                requires
                    e > 0,
                    (m - 1) % e != e - 1,
            ;
        }
    }
}

/// The twin writes what final test writes: of the same units the same
/// dispositions and the same moves in the same order, and it leaves out as
/// many records.
pub proof fn the_twin_comes_to_the_same(batch: Seq<ConsumedRecord>, decoded: Seq<Option<Unit>>)
    ensures
        transformed(batch, decoded).dispositions == super::final_test::transformed(
            batch,
            decoded,
        ).dispositions,
        transformed(batch, decoded).moves == super::final_test::transformed(batch, decoded).moves,
        transformed(batch, decoded).malformed == super::final_test::transformed(
            batch,
            decoded,
        ).malformed,
    decreases batch.len(),
{
    if batch.len() > 0 {
        the_twin_comes_to_the_same(batch.drop_last(), decoded);
    }
}

/// Where a batch stands after what came of each of its steps.
pub open spec fn stepped(results: Seq<Result<(), String>>, since: usize, every: usize) -> Step
    decreases results.len(),
{
    if results.len() == 0 {
        Step::SendDispositions
    } else {
        next_step(stepped(results.drop_last(), since, every), results.last(), since, every)
    }
}

/// The twin produces and then commits: a batch gets to its commit, or past
/// it, only where its dispositions and its moves were taken.
pub proof fn the_twin_produces_before_it_commits(
    results: Seq<Result<(), String>>,
    since: usize,
    every: usize,
)
    ensures
        ({
            let step = stepped(results, since, every);
            step is Report || step is Commit || step is Done ==> results.len() >= 2 && results[0]
                is Ok && results[1] is Ok
        }),
        stepped(results, since, every) is SendMoves ==> results.len() == 1 && results[0] is Ok,
        stepped(results, since, every) is SendDispositions ==> results.len() == 0,
    decreases results.len(),
{
    if results.len() > 0 {
        let rest = results.drop_last();
        the_twin_produces_before_it_commits(rest, since, every);
        if rest.len() >= 1 {
            assert(results[0] == rest[0]);
        }
        if rest.len() >= 2 {
            assert(results[1] == rest[1]);
        }
    }
}

} // verus!
