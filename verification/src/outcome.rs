use vstd::prelude::*;

verus! {

/// A failure of the run or of one of its jobs.
#[derive(Debug)]
pub enum Error {
    /// The find text, under the given flags, is not an acceptable pattern;
    /// the payload is the compiler's report. Fatal before any file is
    /// touched.
    Pattern(String),
    /// An operating-system failure, with the path it concerns when one is
    /// known, and its report.
    Io(Option<String>, String),
    /// The target path has no parent directory to hold the temporary file.
    InvalidPath(String),
    /// A glob pattern or a walk entry that could not be resolved.
    Enumeration(String),
    /// The end-of-run aggregate naming every failed job.
    FailedProcessing(FailedJobs),
}

/// Every failure of a batch: enumeration failures carry no path, per-file
/// failures carry the path of the file they concern.
#[derive(Debug)]
pub struct FailedJobs(pub Vec<(Option<String>, Error)>);

/// Merge the enumeration failures and the per-file failures of one batch into
/// its outcome: success exactly when there were none, otherwise the aggregate
/// listing the enumeration failures first, then each failing path with its
/// error, in order.
pub fn aggregate_outcomes(enumeration: Vec<Error>, jobs: Vec<(String, Error)>) -> (r: Result<
    (),
    Error,
>)
    ensures
        r is Ok <==> (enumeration@.len() == 0 && jobs@.len() == 0),
        r matches Err(e) ==> (e matches Error::FailedProcessing(fj) && {
            &&& fj.0@.len() == enumeration@.len() + jobs@.len()
            &&& forall|i: int|
                0 <= i < enumeration@.len() ==> fj.0@[i] == (None::<String>, enumeration@[i])
            &&& forall|i: int|
                0 <= i < jobs@.len() ==> fj.0@[enumeration@.len() + i] == (
                    Some(jobs@[i].0),
                    jobs@[i].1,
                )
        }),
{
    if enumeration.len() == 0 && jobs.len() == 0 {
        return Ok(());
    }
    let ghost en0 = enumeration@;
    let ghost jobs0 = jobs@;
    let mut merged: Vec<(Option<String>, Error)> = Vec::new();
    let mut enumeration = enumeration;
    let mut jobs = jobs;
    let mut i: usize = 0;
    let n = enumeration.len();
    while i < n
        invariant
            i <= n == en0.len(),
            enumeration@ =~= en0.subrange(i as int, en0.len() as int),
            merged@.len() == i,
            forall|k: int| 0 <= k < i ==> merged@[k] == (None::<String>, en0[k]),
        decreases n - i,
    {
        let e = enumeration.remove(0);
        proof {
            assert(e == en0[i as int]);
        }
        merged.push((None, e));
        i += 1;
        proof {
            assert(enumeration@ =~= en0.subrange(i as int, en0.len() as int));
        }
    }
    let mut j: usize = 0;
    let m = jobs.len();
    while j < m
        invariant
            j <= m == jobs0.len(),
            n == en0.len(),
            jobs@ =~= jobs0.subrange(j as int, jobs0.len() as int),
            merged@.len() == n + j,
            forall|k: int| 0 <= k < n ==> merged@[k] == (None::<String>, en0[k]),
            forall|k: int| 0 <= k < j ==> merged@[n + k] == (Some(jobs0[k].0), jobs0[k].1),
        decreases m - j,
    {
        let job = jobs.remove(0);
        proof {
            assert(job == jobs0[j as int]);
        }
        merged.push((Some(job.0), job.1));
        j += 1;
        proof {
            assert(jobs@ =~= jobs0.subrange(j as int, jobs0.len() as int));
        }
    }
    Err(Error::FailedProcessing(FailedJobs(merged)))
}

} // verus!
