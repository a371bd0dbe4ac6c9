//! Model-store decisions: which files a snapshot must hold, which snapshot a
//! root directory resolves to, and the downloader's retry and resume policy.
//! Directory walking and the HTTP transfer itself happen outside; every
//! choice made from what they report is decided here.

use vstd::prelude::*;
use vstd::string::StrSliceExecFns;
use vstd::string::StringExecFns;

verus! {

/// Attempts made per file before a download is abandoned.
pub const MAX_RETRIES: usize = 3;

/// Base of the linear retry backoff, in seconds.
pub const RETRY_BACKOFF_SECS: u64 = 2;

/// The file names a complete model snapshot must hold.
pub open spec fn required_files() -> Seq<Seq<char>> {
    seq![
        "encoder-model.int8.onnx"@,
        "decoder_joint-model.int8.onnx"@,
        "encoder-model.onnx"@,
        "decoder_joint-model.onnx"@,
        "nemo128.onnx"@,
        "vocab.txt"@,
    ]
}

/// The required model file names, in download order.
pub fn model_files() -> (r: Vec<String>)
    ensures
        r@.map_values(|s: String| s@) == required_files(),
{
    let mut r: Vec<String> = Vec::new();
    r.push(String::from_str("encoder-model.int8.onnx"));
    r.push(String::from_str("decoder_joint-model.int8.onnx"));
    r.push(String::from_str("encoder-model.onnx"));
    r.push(String::from_str("decoder_joint-model.onnx"));
    r.push(String::from_str("nemo128.onnx"));
    r.push(String::from_str("vocab.txt"));
    proof {
        assert(r@.map_values(|s: String| s@) =~= required_files());
    }
    r
}

/// Whether any element of `v` reads the same as `s`.
fn contains_string(v: &Vec<String>, s: &String) -> (b: bool)
    ensures
        b == exists|x: int| 0 <= x < v@.len() && (#[trigger] v@[x])@ == s@,
{
    let mut x: usize = 0;
    while x < v.len()
        invariant
            0 <= x <= v@.len(),
            forall|y: int| 0 <= y < x ==> (#[trigger] v@[y])@ != s@,
        decreases v@.len() - x,
    {
        if v[x].eq(s) {
            return true;
        }
        x = x + 1;
    }
    false
}

/// The required files not among those present, in the required order.
pub fn missing_model_files(present: &Vec<String>) -> (r: Vec<String>)
    ensures
        ({
            let pv = present@.map_values(|s: String| s@);
            r@.map_values(|s: String| s@) == required_files().filter(
                |f: Seq<char>| !pv.contains(f),
            )
        }),
{
    let ghost pv = present@.map_values(|s: String| s@);
    let files = model_files();
    let mut r: Vec<String> = Vec::new();
    let mut i: usize = 0;
    proof {
        reveal(Seq::filter);
        assert(required_files().take(0) =~= Seq::<Seq<char>>::empty());
        assert(r@.map_values(|s: String| s@) =~= required_files().take(0).filter(
            |f: Seq<char>| !pv.contains(f),
        ));
    }
    while i < files.len()
        invariant
            0 <= i <= files@.len(),
            pv == present@.map_values(|s: String| s@),
            files@.map_values(|s: String| s@) == required_files(),
            r@.map_values(|s: String| s@) == required_files().take(i as int).filter(
                |f: Seq<char>| !pv.contains(f),
            ),
        decreases files@.len() - i,
    {
        let ghost r0 = r@.map_values(|s: String| s@);
        let is_present = contains_string(present, &files[i]);
        proof {
            reveal(Seq::filter);
            assert(required_files().take(i + 1).drop_last() =~= required_files().take(i as int));
            assert(required_files().take(i + 1).last() == required_files()[i as int]);
            if is_present {
                let x = choose|x: int|
                    0 <= x < present@.len() && (#[trigger] present@[x])@ == files@[i as int]@;
                assert(pv[x] == files@[i as int]@);
                assert(pv.contains(required_files()[i as int]));
            } else {
                if pv.contains(required_files()[i as int]) {
                    let x = choose|x: int|
                        0 <= x < pv.len() && pv[x] == required_files()[i as int];
                    assert((present@[x])@ == files@[i as int]@);
                    assert(false);
                }
            }
        }
        if !is_present {
            r.push(files[i].clone());
            proof {
                assert(r@.map_values(|s: String| s@) =~= r0.push(required_files()[i as int]));
            }
        }
        i = i + 1;
    }
    proof {
        assert(required_files().take(required_files().len() as int) =~= required_files());
    }
    r
}

/// Test-visible alias of the snapshot completeness check.
pub fn missing_model_files_for_tests(present: &Vec<String>) -> (r: Vec<String>)
    ensures
        ({
            let pv = present@.map_values(|s: String| s@);
            r@.map_values(|s: String| s@) == required_files().filter(
                |f: Seq<char>| !pv.contains(f),
            )
        }),
{
    missing_model_files(present)
}

/// Index of the first newest entry among `[0, n)` of a modification-time list.
pub open spec fn newest_upto(times: Seq<u64>, n: int) -> int
    decreases n,
{
    if n <= 1 {
        0
    } else {
        let b = newest_upto(times, n - 1);
        if times[n - 1] > times[b] {
            n - 1
        } else {
            b
        }
    }
}

/// How the model directory resolves against what is on disk.
#[derive(Debug, PartialEq, Eq, Structural)]
pub enum SnapshotChoice {
    /// The snapshot named by `refs/main` exists: use it.
    UseRef,
    /// No usable ref; use the snapshot directory at this index, the
    /// most recently modified one (the earliest listed on a tie).
    UseNewest(usize),
    /// Nothing usable on disk: download a fresh snapshot.
    Download,
}

/// Resolution order for the model directory: the snapshot that `refs/main`
/// names when that directory exists, else the most recently modified
/// snapshot directory, else a fresh download.
pub fn choose_snapshot(ref_dir_ok: bool, snapshot_mtimes: &Vec<u64>) -> (r: SnapshotChoice)
    ensures
        ref_dir_ok ==> r == SnapshotChoice::UseRef,
        !ref_dir_ok && snapshot_mtimes@.len() == 0 ==> r == SnapshotChoice::Download,
        !ref_dir_ok && snapshot_mtimes@.len() > 0 ==> r == SnapshotChoice::UseNewest(
            newest_upto(snapshot_mtimes@, snapshot_mtimes@.len() as int) as usize,
        ),
{
    if ref_dir_ok {
        return SnapshotChoice::UseRef;
    }
    if snapshot_mtimes.len() == 0 {
        return SnapshotChoice::Download;
    }
    let mut best: usize = 0;
    let mut i: usize = 1;
    while i < snapshot_mtimes.len()
        invariant
            1 <= i <= snapshot_mtimes@.len(),
            best < i,
            best as int == newest_upto(snapshot_mtimes@, i as int),
        decreases snapshot_mtimes@.len() - i,
    {
        if snapshot_mtimes[i] > snapshot_mtimes[best] {
            best = i;
        }
        i = i + 1;
    }
    SnapshotChoice::UseNewest(best)
}

/// Whether a failed attempt should be retried.
pub fn should_retry(attempt: usize) -> (r: bool)
    ensures
        r == (attempt < MAX_RETRIES),
{
    attempt < MAX_RETRIES
}

/// Seconds to wait before retrying after the given 1-based attempt: a linear
/// backoff of two seconds per attempt.
pub fn backoff_secs(attempt: usize) -> (r: u64)
    requires
        attempt <= MAX_RETRIES,
    ensures
        r == RETRY_BACKOFF_SECS * attempt,
{
    RETRY_BACKOFF_SECS * (attempt as u64)
}

/// How one HTTP response is turned into a transfer: append or restart, and
/// what byte counts to report.
#[derive(Debug, PartialEq, Eq, Structural)]
pub struct ResumePlan {
    /// Append to the partial temporary file instead of restarting it.
    pub append: bool,
    /// Bytes already counted as downloaded when the transfer begins.
    pub initial_downloaded: u64,
    /// Expected total size, or zero when the server did not say.
    pub total_size: u64,
}

/// Decides the transfer from the response status, the partial file's size
/// and the reported content length: any non-success status is rejected; a
/// partial-content status resumes by appending, with the expected total
/// being what is already on disk plus what remains; any other success status
/// restarts from scratch.
pub fn plan_resume(status: u16, current_len: u64, content_length: Option<u64>) -> (r: Option<
    ResumePlan,
>)
    ensures
        (status < 200 || status >= 300) ==> r is None,
        200 <= status < 300 ==> (r matches Some(p) && p == (ResumePlan {
            append: status == 206,
            initial_downloaded: if status == 206 {
                current_len
            } else {
                0
            },
            total_size: {
                let content = match content_length {
                    Some(c) => c,
                    None => 0,
                };
                if status == 206 {
                    if content > u64::MAX - current_len {
                        u64::MAX
                    } else {
                        (current_len + content) as u64
                    }
                } else {
                    content
                }
            },
        })),
{
    if status < 200 || status >= 300 {
        return None;
    }
    let content = match content_length {
        Some(c) => c,
        None => 0,
    };
    if status == 206 {
        let total = if content > u64::MAX - current_len {
            u64::MAX
        } else {
            current_len + content
        };
        Some(ResumePlan { append: true, initial_downloaded: current_len, total_size: total })
    } else {
        Some(ResumePlan { append: false, initial_downloaded: 0, total_size: content })
    }
}

/// Whether a finished transfer delivered the right number of bytes: an
/// unknown expected size passes, anything else must match exactly.
pub fn download_complete(total_size: u64, downloaded: u64) -> (r: bool)
    ensures
        r == !(total_size > 0 && downloaded != total_size),
{
    !(total_size > 0 && downloaded != total_size)
}

} // verus!
