//! Downloads: safe file names, a free target name in a folder, the byte
//! ranges fetched in parallel, and the decisions of a transfer (retries, how
//! it ends, each round of a local copy) and of a job's status. The transfers
//! and timers are the application's; the jobs are kept in `jobs`.
use vstd::prelude::*;
use crate::paths::{joined, join_path, name_parts, split_file_name};
use crate::text::{
    chars_equal, chars_of, char_is_ascii_alnum, is_ascii_alnum, nat_text, string_of, trim_char,
    trim_char_chars, trim_chars, trim_spaces, u64_text, digit_char,
};

verus! {

/// Name of the event that carries job updates to the user interface.
pub const DOWNLOAD_EVENT: &'static str = "download-job-updated";

pub const DEFAULT_CHUNK_BYTES: u64 = 8388608;

pub const DEFAULT_CONCURRENCY: usize = 8;

/// The smallest chunk a parallel download is split into.
pub const MIN_CHUNK_BYTES: u64 = 1048576;

/// Age after which finished jobs are forgotten, in seconds (seven days).
pub const TERMINAL_JOB_MAX_AGE_SECONDS: u64 = 604800;

pub const INTERRUPTED_MESSAGE: &'static str = "Download was interrupted because the app was closed or refreshed.";

pub fn default_parallel_chunk_bytes() -> (r: u64)
    ensures
        r == 8388608,
{
    DEFAULT_CHUNK_BYTES
}

pub fn default_parallel_concurrency() -> (r: usize)
    ensures
        r == 8,
{
    DEFAULT_CONCURRENCY
}

/// A download from Drive fetched in parallel ranges.
#[derive(Debug, Clone)]
pub struct ParallelDownloadRequest {
    pub media_id: i64,
    pub title: String,
    pub file_name: String,
    pub target_path: String,
    pub file_id: String,
    pub range_start: u64,
    pub total_bytes: u64,
    pub source_kind: String,
    pub chunk_bytes: u64,
    pub concurrency: usize,
}

/// A "download" that copies a local file.
#[derive(Debug, Clone)]
pub struct LocalCopyRequest {
    pub media_id: i64,
    pub title: String,
    pub file_name: String,
    pub target_path: String,
    pub source_path: String,
    pub total_bytes: u64,
    pub source_kind: String,
}

/// Characters kept in a download name: ASCII letters and digits, `.`, `-`,
/// `_`, space, `(` and `)`; every other character becomes `_`.
pub open spec fn download_char(c: char) -> char {
    if is_ascii_alnum(c) || c == '.' || c == '-' || c == '_' || c == ' ' || c == '(' || c == ')' {
        c
    } else {
        '_'
    }
}

/// The sanitised name: characters mapped, white space trimmed, then dots
/// trimmed; the fallback when nothing is left.
pub open spec fn sanitized_name(raw: Seq<char>, fallback: Seq<char>) -> Seq<char> {
    let t = trim_char(trim_spaces(raw.map_values(|c: char| download_char(c))), '.');
    if t.len() == 0 {
        fallback
    } else {
        t
    }
}

pub fn sanitize_download_filename(raw: &str, fallback: &str) -> (r: String)
    ensures
        r@ == sanitized_name(raw@, fallback@),
{
    let src = chars_of(raw);
    let mut mapped: Vec<char> = Vec::new();
    let mut i: usize = 0;
    while i < src.len()
        invariant
            i <= src.len(),
            src@ == raw@,
            mapped@ == raw@.map_values(|c: char| download_char(c)).subrange(0, i as int),
        decreases src.len() - i,
    {
        let c = src[i];
        let kept = if char_is_ascii_alnum(c) || c == '.' || c == '-' || c == '_' || c == ' ' || c
            == '(' || c == ')' {
            c
        } else {
            '_'
        };
        mapped.push(kept);
        i = i + 1;
    }
    assert(mapped@ =~= raw@.map_values(|c: char| download_char(c)));
    let trimmed = trim_char_chars(&trim_chars(&mapped), '.');
    if trimmed.len() == 0 {
        fallback.to_owned()
    } else {
        string_of(&trimmed)
    }
}

/// Stem and extension used to number a file name: those `Path` gives, except
/// that the empty name, `.` and `..` have stem `download` and no extension.
pub open spec fn stem_and_ext(file_name: Seq<char>) -> (Seq<char>, Option<Seq<char>>) {
    if file_name.len() == 0 || file_name == "."@ || file_name == ".."@ {
        ("download"@, None)
    } else {
        name_parts(file_name)
    }
}

/// `stem (k)` followed by `.ext` when the extension is not empty.
pub open spec fn numbered_name(stem: Seq<char>, ext: Option<Seq<char>>, k: nat) -> Seq<char> {
    let base = stem + " ("@ + nat_text(k) + ")"@;
    match ext {
        Some(e) => if e.len() > 0 {
            base + "."@ + e
        } else {
            base
        },
        None => base,
    }
}

/// The `k`-th name tried for a download: the name itself, then numbered ones.
pub open spec fn candidate_name(file_name: Seq<char>, k: nat) -> Seq<char> {
    if k == 0 {
        file_name
    } else {
        numbered_name(stem_and_ext(file_name).0, stem_and_ext(file_name).1, k)
    }
}

pub open spec fn names_of(taken: Seq<String>) -> Seq<Seq<char>> {
    taken.map_values(|s: String| s@)
}

proof fn lemma_digit_char_injective(a: nat, b: nat)
    requires
        a < 10,
        b < 10,
        digit_char(a) == digit_char(b),
    ensures
        a == b,
{
    assert((digit_char(a) as u32) == a + 48);
    assert((digit_char(b) as u32) == b + 48);
}

proof fn lemma_nat_text_len(n: nat)
    ensures
        nat_text(n).len() >= 1,
        n >= 10 ==> nat_text(n).len() >= 2,
    decreases n,
{
    if n >= 10 {
        lemma_nat_text_len(n / 10);
    }
}

proof fn lemma_nat_text_injective(a: nat, b: nat)
    requires
        nat_text(a) == nat_text(b),
    ensures
        a == b,
    decreases a,
{
    lemma_nat_text_len(a);
    lemma_nat_text_len(b);
    if a < 10 && b < 10 {
        assert(nat_text(a) =~= seq![digit_char(a)]);
        assert(nat_text(b) =~= seq![digit_char(b)]);
        assert(seq![digit_char(a)][0] == digit_char(a));
        assert(seq![digit_char(b)][0] == digit_char(b));
        assert(digit_char(a) == digit_char(b));
        lemma_digit_char_injective(a, b);
    } else if a >= 10 && b >= 10 {
        let ta = nat_text(a);
        let tb = nat_text(b);
        assert(ta.last() == tb.last());
        lemma_digit_char_injective(a % 10, b % 10);
        assert(ta.drop_last() =~= nat_text(a / 10));
        assert(tb.drop_last() =~= nat_text(b / 10));
        lemma_nat_text_injective(a / 10, b / 10);
    }
}

proof fn lemma_numbered_injective(stem: Seq<char>, ext: Option<Seq<char>>, a: nat, b: nat)
    requires
        numbered_name(stem, ext, a) == numbered_name(stem, ext, b),
    ensures
        a == b,
{
    let x = stem + " ("@;
    let ta = nat_text(a);
    let tb = nat_text(b);
    let tail: Seq<char> = match ext {
        Some(e) => if e.len() > 0 {
            ")"@ + "."@ + e
        } else {
            ")"@
        },
        None => ")"@,
    };
    assert(numbered_name(stem, ext, a) =~= x + ta + tail);
    assert(numbered_name(stem, ext, b) =~= x + tb + tail);
    assert(ta.len() == tb.len());
    assert((x + ta + tail).subrange(x.len() as int, (x.len() + ta.len()) as int) =~= ta);
    assert((x + tb + tail).subrange(x.len() as int, (x.len() + tb.len()) as int) =~= tb);
    lemma_nat_text_injective(a, b);
}

/// Among the numbered names 1 to `n + 1`, some name is not among `n` taken
/// names.
proof fn lemma_some_numbered_free(stem: Seq<char>, ext: Option<Seq<char>>, taken: Seq<Seq<char>>)
    ensures
        exists|k: nat| 1 <= k <= taken.len() + 1 && !taken.contains(#[trigger] numbered_name(stem, ext, k)),
{
    let n = taken.len();
    let c = Seq::new((n + 1) as nat, |i: int| numbered_name(stem, ext, (i + 1) as nat));
    if forall|k: nat| 1 <= k <= n + 1 ==> taken.contains(#[trigger] numbered_name(stem, ext, k)) {
        assert(c.no_duplicates()) by {
            assert forall|i: int, j: int| 0 <= i < c.len() && 0 <= j < c.len() && i != j implies c[i]
                != c[j] by {
                if c[i] == c[j] {
                    lemma_numbered_injective(stem, ext, (i + 1) as nat, (j + 1) as nat);
                }
            }
        }
        c.unique_seq_to_set();
        taken.lemma_cardinality_of_set();
        assert(c.to_set().subset_of(taken.to_set())) by {
            assert forall|s: Seq<char>| c.to_set().contains(s) implies taken.to_set().contains(s) by {
                let i = choose|i: int| 0 <= i < c.len() && c[i] == s;
                assert(taken.contains(numbered_name(stem, ext, (i + 1) as nat)));
            }
        }
        vstd::seq_lib::seq_to_set_is_finite(taken);
        vstd::set_lib::lemma_len_subset(c.to_set(), taken.to_set());
        assert(false);
    }
}

/// A path in `dir` for a new download named `file_name`, where `taken` lists
/// the names already present in `dir`: the first of `file_name`,
/// `stem (1).ext`, `stem (2).ext`, ... that is not taken. Such a name always
/// exists among the first `taken.len() + 2` candidates.
pub fn unique_target_path(dir: &str, file_name: &str, taken: &Vec<String>) -> (r: String)
    requires
        taken@.len() + 2 <= usize::MAX,
    ensures
        exists|k: nat|
            r@ == joined(dir@, #[trigger] candidate_name(file_name@, k)) && !names_of(taken@).contains(
                candidate_name(file_name@, k),
            ) && forall|j: nat| j < k ==> names_of(taken@).contains(#[trigger] candidate_name(file_name@, j)),
{
    let ghost views = names_of(taken@);
    let v = chars_of(file_name);
    let (stem, ext) = if v.len() == 0 || chars_equal(&v, ".") || chars_equal(&v, "..") {
        ("download".to_owned(), None)
    } else {
        split_file_name(file_name)
    };
    let ghost stem_v = stem@;
    let ghost ext_v = match &ext {
        Some(e) => Some(e@),
        None => None,
    };
    assert(stem_v == stem_and_ext(file_name@).0 && ext_v == stem_and_ext(file_name@).1);
    proof {
        lemma_some_numbered_free(stem_v, ext_v, views);
    }
    let ext_text: Option<String> = match ext {
        Some(e) => if chars_of(e.as_str()).len() > 0 {
            Some(e)
        } else {
            None
        },
        None => None,
    };
    let mut candidate = file_name.to_owned();
    let mut index: usize = 1;
    assert(candidate@ == candidate_name(file_name@, 0));
    while contains_name(taken, candidate.as_str())
        invariant
            taken@.len() + 2 <= usize::MAX,
            1 <= index <= taken.len() + 2,
            views == names_of(taken@),
            stem_v == stem_and_ext(file_name@).0,
            ext_v == stem_and_ext(file_name@).1,
            stem@ == stem_v,
            match ext_text {
                Some(e) => ext_v matches Some(x) && x.len() > 0 && e@ == x,
                None => ext_v matches None || (ext_v matches Some(x) && x.len() == 0),
            },
            candidate@ == candidate_name(file_name@, (index - 1) as nat),
            forall|j: nat| j < index - 1 ==> views.contains(#[trigger] candidate_name(file_name@, j)),
            exists|k: nat| 1 <= k <= views.len() + 1 && !views.contains(#[trigger] numbered_name(stem_v, ext_v, k)),
        decreases taken.len() + 2 - index,
    {
        proof {
            if index == taken.len() + 2 {
                let k = choose|k: nat| 1 <= k <= views.len() + 1 && !views.contains(#[trigger] numbered_name(stem_v, ext_v, k));
                assert(candidate_name(file_name@, k) == numbered_name(stem_v, ext_v, k));
                assert(k < index - 1 || k == index - 1);
                assert(false);
            }
        }
        let number = u64_text(index as u64);
        let mut next = stem.clone();
        next.append(" (");
        next.append(number.as_str());
        next.append(")");
        match &ext_text {
            Some(e) => {
                next.append(".");
                next.append(e.as_str());
            },
            None => {},
        }
        assert(next@ =~= numbered_name(stem_v, ext_v, index as nat));
        candidate = next;
        index = index + 1;
    }
    join_path(dir, candidate.as_str())
}

/// Whether one of `taken` is `name`.
pub fn contains_name(taken: &Vec<String>, name: &str) -> (r: bool)
    ensures
        r == names_of(taken@).contains(name@),
{
    let target = chars_of(name);
    let mut i: usize = 0;
    while i < taken.len()
        invariant
            i <= taken.len(),
            target@ == name@,
            forall|j: int| 0 <= j < i ==> taken@[j]@ != name@,
        decreases taken.len() - i,
    {
        let t = chars_of(taken[i].as_str());
        if crate::config::vec_equal(&t, &target) {
            assert(names_of(taken@)[i as int] == name@);
            return true;
        }
        i = i + 1;
    }
    assert forall|j: int| 0 <= j < names_of(taken@).len() implies names_of(taken@)[j] != name@ by {}
    false
}

/// The inclusive byte ranges, each at most `chunk` long, that cover
/// `[start, total)` in order.
pub open spec fn ranges_from(start: int, total: int, chunk: int) -> Seq<(u64, u64)>
    decreases total - start,
{
    if start >= total || chunk <= 0 {
        Seq::empty()
    } else {
        let end = if start + chunk - 1 < total - 1 {
            start + chunk - 1
        } else {
            total - 1
        };
        seq![(start as u64, end as u64)] + ranges_from(end + 1, total, chunk)
    }
}

/// The chunks of a download of `total_bytes` bytes, as inclusive ranges of at
/// most `chunk_bytes` bytes each.
pub fn build_chunk_ranges(total_bytes: u64, chunk_bytes: u64) -> (r: Vec<(u64, u64)>)
    requires
        chunk_bytes >= 1,
    ensures
        r@ == ranges_from(0, total_bytes as int, chunk_bytes as int),
{
    let mut ranges: Vec<(u64, u64)> = Vec::new();
    let mut start: u64 = 0;
    while start < total_bytes
        invariant
            chunk_bytes >= 1,
            start <= total_bytes,
            ranges@ + ranges_from(start as int, total_bytes as int, chunk_bytes as int) == ranges_from(
                0,
                total_bytes as int,
                chunk_bytes as int,
            ),
        decreases total_bytes - start,
    {
        let end = if total_bytes - start > chunk_bytes {
            start + chunk_bytes - 1
        } else {
            total_bytes - 1
        };
        let ghost before = ranges@;
        ranges.push((start, end));
        assert(ranges@ + ranges_from(end + 1, total_bytes as int, chunk_bytes as int) =~= before
            + ranges_from(start as int, total_bytes as int, chunk_bytes as int));
        start = end + 1;
    }
    assert(ranges@ + ranges_from(start as int, total_bytes as int, chunk_bytes as int) =~= ranges@);
    ranges
}

/// The chunk ranges cover `[start, total)` exactly once, in order: the first
/// begins at `start`, each begins right after the one before ends, the last
/// ends at `total - 1`, and none is empty or longer than `chunk`.
pub proof fn lemma_ranges_partition(start: int, total: int, chunk: int)
    requires
        0 <= start,
        total <= u64::MAX,
        chunk >= 1,
    ensures
        ({
            let r = ranges_from(start, total, chunk);
            &&& (start < total <==> r.len() > 0)
            &&& r.len() > 0 ==> r[0].0 == start && r.last().1 == total - 1
            &&& forall|i: int| 0 <= i < r.len() ==> #[trigger] r[i].0 <= r[i].1 && r[i].1 - r[i].0 + 1 <= chunk
            &&& forall|i: int| 0 <= i < r.len() - 1 ==> #[trigger] r[i + 1].0 == r[i].1 + 1
        }),
    decreases total - start,
{
    if start < total {
        let end = if start + chunk - 1 < total - 1 {
            start + chunk - 1
        } else {
            total - 1
        };
        lemma_ranges_partition(end + 1, total, chunk);
        let rest = ranges_from(end + 1, total, chunk);
        let r = ranges_from(start, total, chunk);
        assert(r == seq![(start as u64, end as u64)] + rest);
        assert forall|i: int| 0 <= i < r.len() implies #[trigger] r[i].0 <= r[i].1 && r[i].1 - r[i].0 + 1
            <= chunk by {
            if i > 0 {
                assert(r[i] == rest[i - 1]);
            }
        }
        assert forall|i: int| 0 <= i < r.len() - 1 implies #[trigger] r[i + 1].0 == r[i].1 + 1 by {
            if i > 0 {
                assert(r[i] == rest[i - 1]);
                assert(r[i + 1] == rest[i]);
                assert(rest[(i - 1) + 1].0 == rest[i - 1].1 + 1);
            } else {
                assert(r[1] == rest[0]);
            }
        }
        if rest.len() > 0 {
            assert(r.last() == rest.last());
        }
    }
}

/// Chunk size and parallelism actually used for a request: at least 1 MiB
/// per chunk and at least one worker.
pub fn effective_chunking(request: &ParallelDownloadRequest) -> (r: (u64, usize))
    ensures
        r.0 == (if request.chunk_bytes > MIN_CHUNK_BYTES {
            request.chunk_bytes
        } else {
            MIN_CHUNK_BYTES
        }),
        r.1 == (if request.concurrency > 1 {
            request.concurrency
        } else {
            1
        }),
{
    let chunk = if request.chunk_bytes > MIN_CHUNK_BYTES {
        request.chunk_bytes
    } else {
        MIN_CHUNK_BYTES
    };
    let workers = if request.concurrency > 1 {
        request.concurrency
    } else {
        1
    };
    (chunk, workers)
}

/// The absolute byte range in the source file of a relative chunk.
pub fn absolute_range(range_start: u64, chunk: (u64, u64)) -> (r: (u64, u64))
    requires
        range_start + chunk.0 <= u64::MAX,
        range_start + chunk.1 <= u64::MAX,
    ensures
        r == ((range_start + chunk.0) as u64, (range_start + chunk.1) as u64),
{
    (range_start + chunk.0, range_start + chunk.1)
}

/// A job that is queued, preparing or downloading is still active.
pub open spec fn active_status(status: Seq<char>) -> bool {
    status == "queued"@ || status == "preparing"@ || status == "downloading"@
}

/// A completed, failed or cancelled job is finished.
pub open spec fn terminal_status(status: Seq<char>) -> bool {
    status == "completed"@ || status == "failed"@ || status == "cancelled"@
}

pub fn is_active_status(status: &str) -> (r: bool)
    ensures
        r == active_status(status@),
{
    let s = chars_of(status);
    chars_equal(&s, "queued") || chars_equal(&s, "preparing") || chars_equal(&s, "downloading")
}

pub fn is_terminal_status(status: &str) -> (r: bool)
    ensures
        r == terminal_status(status@),
{
    let s = chars_of(status);
    chars_equal(&s, "completed") || chars_equal(&s, "failed") || chars_equal(&s, "cancelled")
}

/// The status after a cancellation request: an active job becomes
/// `cancelled`, a finished one keeps its status.
pub fn status_after_cancel(status: &str) -> (r: String)
    ensures
        r@ == (if active_status(status@) {
            "cancelled"@
        } else {
            status@
        }),
{
    if is_active_status(status) {
        "cancelled".to_owned()
    } else {
        status.to_owned()
    }
}

/// Status and error of a stored job when the application starts again: a job
/// that was still active was interrupted and is marked failed with the
/// interruption message; any other job is left as it was.
pub fn restored_job_state(status: &str, error: Option<String>) -> (r: (String, Option<String>))
    ensures
        active_status(status@) ==> (r.0@ == "failed"@ && (r.1 matches Some(e) && e@
            == INTERRUPTED_MESSAGE@)),
        !active_status(status@) ==> r.0@ == status@ && r.1 == error,
{
    if is_active_status(status) {
        ("failed".to_owned(), Some(INTERRUPTED_MESSAGE.to_owned()))
    } else {
        (status.to_owned(), error)
    }
}

/// Whether clearing the history keeps a job: only active jobs stay.
pub fn kept_by_clear_history(status: &str) -> (r: bool)
    ensures
        r == active_status(status@),
{
    is_active_status(status)
}

/// Whether the start-up clean-up keeps a job, given the seconds since it was
/// last updated (none when its timestamp could not be read; negative when it
/// lies in the future): finished jobs are dropped once seven days old.
pub fn kept_by_cleanup(status: &str, age_seconds: Option<i64>) -> (r: bool)
    ensures
        r == (!terminal_status(status@) || match age_seconds {
            None => true,
            Some(a) => a < TERMINAL_JOB_MAX_AGE_SECONDS,
        }),
{
    if !is_terminal_status(status) {
        return true;
    }
    match age_seconds {
        None => true,
        Some(a) => a < 604800,
    }
}

/// What to do with a fetched chunk.
#[derive(Debug, Clone, Copy, PartialEq, Eq, Structural)]
pub enum ChunkAction {
    /// The chunk is complete: write it.
    Accept,
    /// Fetch again after this many milliseconds.
    Retry(u64),
    /// Give up on the download.
    Fail,
}

/// A chunk of the wrong length is fetched again, after 250 ms per attempt
/// made, up to three attempts; then the download fails.
pub fn chunk_action(received: u64, expected: u64, attempt: u32) -> (r: ChunkAction)
    ensures
        received == expected ==> r == ChunkAction::Accept,
        received != expected && attempt < 3 ==> r == ChunkAction::Retry((250 * attempt) as u64),
        received != expected && attempt >= 3 ==> r == ChunkAction::Fail,
{
    if received == expected {
        ChunkAction::Accept
    } else if attempt < 3 {
        ChunkAction::Retry(250 * (attempt as u64))
    } else {
        ChunkAction::Fail
    }
}

/// The message of a download that failed on an incomplete chunk.
pub fn incomplete_chunk_message(expected: u64, received: u64) -> (r: String)
    ensures
        r@ == "Incomplete chunk download: expected "@ + nat_text(expected as nat) + " bytes, got "@
            + nat_text(received as nat),
{
    let mut m = "Incomplete chunk download: expected ".to_owned();
    m.append(u64_text(expected).as_str());
    m.append(" bytes, got ");
    m.append(u64_text(received).as_str());
    m
}

/// How a transfer ends once its workers have stopped.
#[derive(Debug, Clone, PartialEq, Eq)]
pub enum TransferEnd {
    /// The user cancelled: the partial file is removed, the job is cancelled.
    Cancelled,
    /// A worker failed: the partial file is removed, the job failed with this message.
    Failed(String),
    /// All chunks arrived: the partial file is moved into place.
    Finalize,
}

/// A set cancellation flag, or a worker that stopped because of it, ends the
/// transfer as cancelled; any other failure ends it as failed; otherwise the
/// file is finalised.
pub fn transfer_end(cancel_requested: bool, failure: Option<String>) -> (r: TransferEnd)
    ensures
        match failure {
            None => if cancel_requested {
                r == TransferEnd::Cancelled
            } else {
                r == TransferEnd::Finalize
            },
            Some(f) => if cancel_requested || f@ == "cancelled"@ {
                r == TransferEnd::Cancelled
            } else {
                r == TransferEnd::Failed(f)
            },
        },
{
    match failure {
        None => if cancel_requested {
            TransferEnd::Cancelled
        } else {
            TransferEnd::Finalize
        },
        Some(f) => if cancel_requested || chars_equal(&chars_of(f.as_str()), "cancelled") {
            TransferEnd::Cancelled
        } else {
            TransferEnd::Failed(f)
        },
    }
}

/// What happened in one round of copying a local file.
#[derive(Debug, Clone)]
pub enum CopyEvent {
    /// The user asked to cancel before the round.
    CancelRequested,
    /// Reading the source failed with this message.
    ReadFailed(String),
    /// The source had nothing more to give.
    EndOfSource,
    /// This many bytes were read and written.
    Copied(u64),
    /// Writing the target failed with this message.
    WriteFailed(String),
}

/// What the copy does next.
#[derive(Debug, Clone)]
pub enum CopyAction {
    /// Remove the partial file; the job is cancelled.
    Cancel,
    /// Remove the partial file; the job failed with this message.
    Fail(String),
    /// Move the partial file into place.
    Finalize,
    /// Report this many bytes copied so far, and go on.
    Continue(u64),
}

/// One round of a local copy: a cancellation stops it, a failure fails it
/// with the reason, the end of the source finalises it, and copied bytes
/// add to the count (which stops at `u64::MAX`).
pub fn local_copy_step(copied: u64, event: CopyEvent) -> (r: CopyAction)
    ensures
        match event {
            CopyEvent::CancelRequested => r is Cancel,
            CopyEvent::EndOfSource => r is Finalize,
            CopyEvent::Copied(n) => r == CopyAction::Continue(
                if copied + n > u64::MAX {
                    u64::MAX
                } else {
                    (copied + n) as u64
                },
            ),
            CopyEvent::ReadFailed(e) => r matches CopyAction::Fail(m) && m@ == "Failed to read source file: "@
                + e@,
            CopyEvent::WriteFailed(e) => r matches CopyAction::Fail(m) && m@ == "Failed to write target file: "@
                + e@,
        },
{
    match event {
        CopyEvent::CancelRequested => CopyAction::Cancel,
        CopyEvent::EndOfSource => CopyAction::Finalize,
        CopyEvent::Copied(n) => CopyAction::Continue(copied.saturating_add(n)),
        CopyEvent::ReadFailed(e) => {
            let mut m = "Failed to read source file: ".to_owned();
            m.append(e.as_str());
            CopyAction::Fail(m)
        },
        CopyEvent::WriteFailed(e) => {
            let mut m = "Failed to write target file: ".to_owned();
            m.append(e.as_str());
            CopyAction::Fail(m)
        },
    }
}

/// The temporary file a download is written to: the target's extension (or
/// `download` when it has none) gets `.part` appended.
pub open spec fn part_file_name(target_name: Seq<char>) -> Seq<char> {
    let (stem, ext) = name_parts(target_name);
    let e = match ext {
        Some(x) => x,
        None => "download"@,
    };
    stem + "."@ + e + ".part"@
}

/// The temporary path for a download into `dir` under the file name
/// `target_name`. An empty name or `..` is no file name: no extension can be
/// set on it, and `dir` joined with the name is given back unchanged.
pub fn part_file_path(dir: &str, target_name: &str) -> (r: String)
    ensures
        target_name@.len() > 0 && target_name@ != ".."@ ==> r@ == joined(dir@, part_file_name(target_name@)),
        target_name@.len() == 0 || target_name@ == ".."@ ==> r@ == joined(dir@, target_name@),
{
    let t = chars_of(target_name);
    if t.len() == 0 || chars_equal(&t, "..") {
        return join_path(dir, target_name);
    }
    let (stem, ext) = split_file_name(target_name);
    let mut name = stem;
    name.append(".");
    match ext {
        Some(e) => name.append(e.as_str()),
        None => name.append("download"),
    }
    name.append(".part");
    join_path(dir, name.as_str())
}

/// A leftover temporary file is one whose name has the extension `part`.
pub fn is_part_file(file_name: &str) -> (r: bool)
    ensures
        r == (name_parts(file_name@).1 == Some("part"@)),
{
    let (_, ext) = split_file_name(file_name);
    match ext {
        Some(e) => chars_equal(&chars_of(e.as_str()), "part"),
        None => false,
    }
}


/// A sanitised download name is the fallback, or a non-empty name made only
/// of kept characters (so no path separator survives) that neither starts
/// nor ends with a dot. (It may start with a space: `". x"` gives `" x"`,
/// because white space is trimmed before the dots.)
pub proof fn lemma_sanitized_name_is_safe(raw: Seq<char>, fallback: Seq<char>)
    ensures
        ({
            let r = sanitized_name(raw, fallback);
            r == fallback || (r.len() > 0 && (forall|i: int| 0 <= i < r.len() ==> #[trigger] download_char(r[i]) == r[i]
                && r[i] != '/' && r[i] != '\\') && r[0] != '.' && r.last() != '.')
        }),
{
    let m = raw.map_values(|c: char| download_char(c));
    let t = trim_spaces(m);
    let u = trim_char(t, '.');
    if u.len() > 0 {
        let p = |c: char| crate::text::is_space(c);
        crate::text::lemma_lead_count_bound(m, p);
        crate::text::lemma_trail_count_bound(m, p);
        if crate::text::lead_count(m, p) < m.len() {
            crate::text::lemma_runs_disjoint(m, p);
        }
        assert forall|i: int| 0 <= i < t.len() implies #[trigger] download_char(t[i]) == t[i] && t[i] != '/' && t[i] != '\\' by {
            let f = crate::text::lead_count(m, p) as int;
            assert(t[i] == m[f + i]);
        }
        lemma_trim_char_shape(t, '.');
        assert forall|i: int| 0 <= i < u.len() implies #[trigger] download_char(u[i]) == u[i] && u[i] != '/' && u[i] != '\\' by {
            let f = lead_eq_of(t);
            assert(u[i] == t[f + i]);
        }
        let f = lead_eq_of(t);
        assert(u[0] == t[f]);
        assert(u.last() == t[f + u.len() - 1]);
    }
}

spec fn lead_eq_of(t: Seq<char>) -> int {
    crate::text::lead_eq(t, '.') as int
}

proof fn lemma_trim_char_shape(t: Seq<char>, c: char)
    ensures
        trim_char(t, c).len() > 0 ==> {
            let f = crate::text::lead_eq(t, c) as int;
            let b = crate::text::trail_eq(t, c) as int;
            &&& 0 <= f && f + b < t.len()
            &&& trim_char(t, c) == t.subrange(f, t.len() - b)
            &&& t[f] != c
            &&& t[t.len() - b - 1] != c
        },
{
    lemma_lead_eq_bound(t, c);
    lemma_trail_eq_bound(t, c);
    let f = crate::text::lead_eq(t, c) as int;
    let b = crate::text::trail_eq(t, c) as int;
    if f < t.len() && f + b >= t.len() {
        assert(t[f] == c);
    }
}

proof fn lemma_lead_eq_bound(s: Seq<char>, c: char)
    ensures
        crate::text::lead_eq(s, c) <= s.len(),
        forall|i: int| 0 <= i < crate::text::lead_eq(s, c) ==> #[trigger] s[i] == c,
        crate::text::lead_eq(s, c) < s.len() ==> s[crate::text::lead_eq(s, c) as int] != c,
    decreases s.len(),
{
    if s.len() > 0 && s[0] == c {
        lemma_lead_eq_bound(s.drop_first(), c);
        assert forall|i: int| 0 <= i < crate::text::lead_eq(s, c) implies #[trigger] s[i] == c by {
            if i > 0 {
                assert(s[i] == s.drop_first()[i - 1]);
            }
        }
    }
}

proof fn lemma_trail_eq_bound(s: Seq<char>, c: char)
    ensures
        crate::text::trail_eq(s, c) <= s.len(),
        forall|i: int| s.len() - crate::text::trail_eq(s, c) <= i < s.len() ==> #[trigger] s[i] == c,
        crate::text::trail_eq(s, c) < s.len() ==> s[s.len() - 1 - crate::text::trail_eq(s, c)] != c,
    decreases s.len(),
{
    if s.len() > 0 && s.last() == c {
        lemma_trail_eq_bound(s.drop_last(), c);
        assert forall|i: int| s.len() - crate::text::trail_eq(s, c) <= i < s.len() implies #[trigger] s[i]
            == c by {
            if i < s.len() - 1 {
                assert(s[i] == s.drop_last()[i]);
            }
        }
    }
}

proof fn lemma_statuses_distinct()
    ensures
        !terminal_status("queued"@),
        !terminal_status("preparing"@),
        !terminal_status("downloading"@),
        !active_status("completed"@),
        !active_status("failed"@),
        !active_status("cancelled"@),
{
    reveal_strlit("cancelled");
    reveal_strlit("queued");
    reveal_strlit("preparing");
    reveal_strlit("downloading");
    reveal_strlit("completed");
    reveal_strlit("failed");
    assert("queued"@[0] != "completed"@[0]);
    assert("queued"@[0] != "failed"@[0]);
    assert("queued"@[0] != "cancelled"@[0]);
    assert("preparing"@[0] != "completed"@[0]);
    assert("preparing"@.len() != "failed"@.len());
    assert("preparing"@[0] != "cancelled"@[0]);
    assert("downloading"@.len() != "completed"@.len());
    assert("downloading"@.len() != "failed"@.len());
    assert("downloading"@.len() != "cancelled"@.len());
}

/// Cancelling twice is cancelling once, and a finished job keeps its status.
pub proof fn lemma_cancel_idempotent(status: Seq<char>)
    ensures
        ({
            let once = if active_status(status) {
                "cancelled"@
            } else {
                status
            };
            let twice = if active_status(once) {
                "cancelled"@
            } else {
                once
            };
            &&& once == twice
            &&& terminal_status(status) ==> once == status
            &&& active_status(status) ==> terminal_status(once)
        }),
{
    lemma_statuses_distinct();
}

/// No status is both active and finished; `cancelled` and `failed` are
/// finished.
pub proof fn lemma_status_classes(status: Seq<char>)
    ensures
        !(active_status(status) && terminal_status(status)),
        terminal_status("cancelled"@) && !active_status("cancelled"@),
        terminal_status("failed"@) && !active_status("failed"@),
{
    lemma_statuses_distinct();
}

/// The start-up clean-up never drops an active job.
pub proof fn lemma_cleanup_keeps_active(status: Seq<char>, age: Option<i64>)
    requires
        active_status(status),
    ensures
        !terminal_status(status),
{
    lemma_statuses_distinct();
}

} // verus!
