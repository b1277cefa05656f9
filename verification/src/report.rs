//! From the records of the API and the raw logs to the entries of a report.

use crate::error_line::{error_line, error_line_of, lemma_error_line_is_utf8, same_bytes};
use crate::excerpt::{excerpt, lemma_excerpt_is_utf8, short_log};
use crate::github::{Conclusion, Job, WorkflowRun, WorkflowRuns};
use crate::lines::{offset_from, offset_of};
use crate::markers::bytes;
use crate::normalize::{encodable, normalized, trim_log, SPACE};
use crate::number::{parse_u64, parsed_u64};
use crate::text::{has_prefix, starts_with};
use vstd::prelude::*;
use vstd::slice::{slice_subrange, slice_to_vec};
use vstd::string::StringSliceAdditionalSpecFns;
use vstd::utf8::valid_utf8;

verus! {

/// How the title of a run begins that merges a pull request.
pub const AUTO_MERGE: &'static str = "Auto merge of #";

/// The name of the job that only reports that a build has finished.
pub const BORS_FINISHED: &'static str = "bors build finished";

/// A run that failed.
pub struct FailedWorkflowRun {
    pub id: u64,
    pub title: String,
}

/// How the runs of a period ended.
pub struct Tally {
    pub success: u64,
    pub fail: u64,
    pub cancelled: u64,
    pub failures: Vec<FailedWorkflowRun>,
}

/// One failed job, as the report shows it.
pub struct Fail {
    pub title: String,
    pub time: String,
    pub job_name: String,
    pub job_id: u64,
    pub url: String,
    pub short_log: Vec<u8>,
    pub error_line: Option<Vec<u8>>,
    pub pr_id: u64,
}

/// A report: the period, how its runs ended, and its failed jobs.
pub struct Fails {
    pub start: String,
    pub end: String,
    pub success: u64,
    pub fail: u64,
    pub cancelled: u64,
    pub fails: Vec<Fail>,
}

/// Why a failed job gives no entry.
#[derive(Clone, Copy, PartialEq, Eq, Structural, Debug)]
pub enum JobError {
    /// The log is not valid UTF-8 once its control sequences are removed.
    Encoding,
    /// The title of the run names no pull request.
    PrIdNotFound,
}

/// The runs of all pages, in order.
pub open spec fn all_runs(pages: Seq<WorkflowRuns>) -> Seq<WorkflowRun>
    decreases pages.len(),
{
    if pages.len() == 0 {
        Seq::empty()
    } else {
        all_runs(pages.drop_last()) + pages.last().workflow_runs@
    }
}

/// How many of the runs ended with `conclusion`.
pub open spec fn count(runs: Seq<WorkflowRun>, conclusion: Conclusion) -> nat
    decreases runs.len(),
{
    if runs.len() == 0 {
        0
    } else {
        count(runs.drop_last(), conclusion) + if runs.last().conclusion == Some(conclusion) {
            1nat
        } else {
            0nat
        }
    }
}

/// The identifier and title of each run that failed, in order.
pub open spec fn failed(runs: Seq<WorkflowRun>) -> Seq<(u64, Seq<char>)>
    decreases runs.len(),
{
    if runs.len() == 0 {
        Seq::empty()
    } else if runs.last().conclusion == Some(Conclusion::Failure) {
        failed(runs.drop_last()).push((runs.last().id, runs.last().display_title@))
    } else {
        failed(runs.drop_last())
    }
}

/// The identifier and title of each failed run of a list.
pub open spec fn named(failures: Seq<FailedWorkflowRun>) -> Seq<(u64, Seq<char>)> {
    failures.map_values(|f: FailedWorkflowRun| (f.id, f.title@))
}

/// The number of the pull request that a run's title names: the title begins
/// with `Auto merge of #`, and what follows up to the first space is a number.
pub open spec fn pr_id_of(title: Seq<u8>) -> Option<u64> {
    let prefix = bytes(AUTO_MERGE);
    if has_prefix(title, prefix) {
        let rest = title.skip(prefix.len() as int);
        let k = offset_of(rest, SPACE);
        if k < rest.len() {
            parsed_u64(rest.take(k))
        } else {
            None
        }
    } else {
        None
    }
}

/// A job is reported when it failed and is not the one by which bors says
/// that a build has finished.
pub open spec fn reportable(job: &Job) -> bool {
    job.conclusion == Conclusion::Failure && job.name@ != BORS_FINISHED@
}

/// The bytes that an optional line holds.
pub open spec fn line_view(line: Option<Vec<u8>>) -> Option<Seq<u8>> {
    match line {
        Some(l) => Some(l@),
        None => None,
    }
}

/// No more runs end in one way than there are runs.
pub proof fn lemma_count_bounded(runs: Seq<WorkflowRun>, conclusion: Conclusion)
    ensures
        count(runs, conclusion) <= runs.len(),
    decreases runs.len(),
{
    if runs.len() > 0 {
        lemma_count_bounded(runs.drop_last(), conclusion);
    }
}

/// The first pages hold no more runs than all pages.
pub proof fn lemma_all_runs_prefix(pages: Seq<WorkflowRuns>, j: int)
    requires
        0 <= j <= pages.len(),
    ensures
        all_runs(pages.take(j)).len() <= all_runs(pages).len(),
    decreases pages.len() - j,
{
    if j == pages.len() {
        assert(pages.take(j) =~= pages);
    } else {
        lemma_all_runs_prefix(pages, j + 1);
        assert(pages.take(j + 1).drop_last() =~= pages.take(j));
    }
}

/// Counts how the runs ended, and lists those that failed.
pub fn tally(pages: &[WorkflowRuns]) -> (r: Tally)
    requires
        all_runs(pages@).len() <= u64::MAX,
    ensures
        r.success == count(all_runs(pages@), Conclusion::Success),
        r.fail == count(all_runs(pages@), Conclusion::Failure),
        r.cancelled == count(all_runs(pages@), Conclusion::Cancelled),
        named(r.failures@) == failed(all_runs(pages@)),
{
    let mut success: u64 = 0;
    let mut fail: u64 = 0;
    let mut cancelled: u64 = 0;
    let mut failures: Vec<FailedWorkflowRun> = Vec::new();
    let n: usize = pages.len();
    let mut p: usize = 0;
    proof {
        assert(pages@.take(0) =~= Seq::<WorkflowRuns>::empty());
        assert(named(failures@) =~= Seq::<(u64, Seq<char>)>::empty());
    }
    while p < n
        invariant
            n == pages@.len(),
            p <= n,
            all_runs(pages@).len() <= u64::MAX,
            success == count(all_runs(pages@.take(p as int)), Conclusion::Success),
            fail == count(all_runs(pages@.take(p as int)), Conclusion::Failure),
            cancelled == count(all_runs(pages@.take(p as int)), Conclusion::Cancelled),
            named(failures@) == failed(all_runs(pages@.take(p as int))),
        decreases n - p,
    {
        let page = &pages[p].workflow_runs;
        let m: usize = page.len();
        let ghost before = all_runs(pages@.take(p as int));
        let mut i: usize = 0;
        proof {
            assert(pages@.take(p + 1).drop_last() =~= pages@.take(p as int));
            assert(pages@.take(p + 1).last() == pages@[p as int]);
            lemma_all_runs_prefix(pages@, p + 1);
            assert(before + page@.take(0) =~= before);
        }
        while i < m
            invariant
                m == page@.len(),
                i <= m,
                before.len() + m <= u64::MAX,
                success == count(before + page@.take(i as int), Conclusion::Success),
                fail == count(before + page@.take(i as int), Conclusion::Failure),
                cancelled == count(before + page@.take(i as int), Conclusion::Cancelled),
                named(failures@) == failed(before + page@.take(i as int)),
            decreases m - i,
        {
            let run = &page[i];
            let ghost seen = before + page@.take(i as int);
            let ghost next = before + page@.take(i + 1);
            proof {
                assert(next.drop_last() =~= seen);
                assert(next.last() == page@[i as int]);
                lemma_count_bounded(seen, Conclusion::Success);
                lemma_count_bounded(seen, Conclusion::Failure);
                lemma_count_bounded(seen, Conclusion::Cancelled);
            }
            match run.conclusion {
                Some(Conclusion::Failure) => {
                    let ghost listed = named(failures@);
                    failures.push(FailedWorkflowRun { id: run.id, title: run.display_title.clone() });
                    proof {
                        assert(named(failures@) =~= listed.push((run.id, run.display_title@)));
                    }
                    fail = fail + 1;
                },
                Some(Conclusion::Success) => {
                    success = success + 1;
                },
                Some(Conclusion::Cancelled) => {
                    cancelled = cancelled + 1;
                },
                _ => {},
            }
            i = i + 1;
        }
        proof {
            assert(page@.take(m as int) =~= page@);
        }
        p = p + 1;
    }
    proof {
        assert(pages@.take(n as int) =~= pages@);
    }
    Tally { success, fail, cancelled, failures }
}

/// Whether a job is reported.
pub fn is_reportable(job: &Job) -> (r: bool)
    ensures
        r == reportable(job),
{
    let name = job.name.as_str().as_bytes();
    let bors = BORS_FINISHED.as_bytes();
    proof {
        vstd::utf8::encode_utf8_decode_utf8(job.name@);
        vstd::utf8::encode_utf8_decode_utf8(BORS_FINISHED@);
    }
    job.conclusion == Conclusion::Failure && !same_bytes(name, bors)
}

/// Reads the number of the pull request from the title of a run.
pub fn pr_id(title: &[u8]) -> (r: Option<u64>)
    ensures
        r == pr_id_of(title@),
{
    let prefix = AUTO_MERGE.as_bytes();
    if !starts_with(title, prefix) {
        return None;
    }
    let from: usize = prefix.len();
    let end = offset_from(title, from, SPACE);
    if end < title.len() {
        proof {
            assert(title@.subrange(from as int, end as int) =~= title@.skip(from as int).take(
                end - from,
            ));
        }
        parse_u64(slice_subrange(title, from, end))
    } else {
        None
    }
}

/// Makes the entry of a failed job from the title of its run, its record and
/// its raw log: normalises the log, chooses the excerpt and picks the error
/// line from the excerpt.
pub fn report_job(title: &str, job: &Job, raw_log: &[u8]) -> (r: Result<Fail, JobError>)
    ensures
        match r {
            Ok(fail) => {
                &&& encodable(raw_log@)
                &&& pr_id_of(title.spec_bytes()) == Some(fail.pr_id)
                &&& fail.title@ == title@
                &&& fail.time@ == job.started_at@
                &&& fail.job_name@ == job.name@
                &&& fail.job_id == job.id
                &&& fail.url@ == job.html_url@
                &&& fail.short_log@ == excerpt(normalized(raw_log@))
                &&& line_view(fail.error_line) == error_line_of(excerpt(normalized(raw_log@)))
                &&& valid_utf8(fail.short_log@)
                &&& match fail.error_line {
                    Some(line) => valid_utf8(line@),
                    None => true,
                }
            },
            Err(JobError::Encoding) => !encodable(raw_log@),
            Err(JobError::PrIdNotFound) => encodable(raw_log@) && pr_id_of(title.spec_bytes())
                is None,
        },
{
    let log = match trim_log(raw_log) {
        Ok(log) => log,
        Err(_) => {
            return Err(JobError::Encoding);
        },
    };
    let short = short_log(log.as_slice());
    proof {
        lemma_excerpt_is_utf8(log@);
        if error_line_of(short@) is Some {
            lemma_error_line_is_utf8(short@);
        }
    }
    let number = match pr_id(title.as_bytes()) {
        Some(number) => number,
        None => {
            return Err(JobError::PrIdNotFound);
        },
    };
    let line = match error_line(short.as_slice()) {
        Some(line) => Some(slice_to_vec(line)),
        None => None,
    };
    Ok(
        Fail {
            title: title.to_owned(),
            time: job.started_at.clone(),
            job_name: job.name.clone(),
            job_id: job.id,
            url: job.html_url.clone(),
            short_log: short,
            error_line: line,
            pr_id: number,
        },
    )
}

} // verus!
