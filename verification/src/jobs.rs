//! The store of download jobs: every job the application knows of, keyed by
//! its id, with the operations that create, update, cancel, delete and list
//! them, and the rules applied when the stored jobs are read back.
use vstd::prelude::*;
use crate::download::{active_status, is_active_status, is_terminal_status, terminal_status, INTERRUPTED_MESSAGE};
use crate::history::{less_than, text_less, lemma_text_less_transitive};
use crate::text::chars_of;
use vstd::seq_lib::{to_multiset_build, to_multiset_insert};

verus! {

/// One download job as the user interface shows it. The transfer speed and
/// the progress percentage are derived by the application from the byte
/// counts and the clock, and are not kept here.
#[derive(Debug, Clone)]
pub struct DownloadJob {
    pub id: String,
    pub media_id: i64,
    pub title: String,
    pub file_name: String,
    pub target_path: String,
    pub status: String,
    pub downloaded_bytes: u64,
    pub total_bytes: u64,
    pub created_at: String,
    pub updated_at: String,
    pub error: Option<String>,
    pub source_kind: String,
    pub source_exists: bool,
    pub target_exists: bool,
}

/// A job as a plain value.
#[verifier::ext_equal]
pub struct JobView {
    pub id: Seq<char>,
    pub media_id: i64,
    pub title: Seq<char>,
    pub file_name: Seq<char>,
    pub target_path: Seq<char>,
    pub status: Seq<char>,
    pub downloaded_bytes: u64,
    pub total_bytes: u64,
    pub created_at: Seq<char>,
    pub updated_at: Seq<char>,
    pub error: Option<Seq<char>>,
    pub source_kind: Seq<char>,
    pub source_exists: bool,
    pub target_exists: bool,
}

pub open spec fn opt_view(o: Option<String>) -> Option<Seq<char>> {
    match o {
        Some(s) => Some(s@),
        None => None,
    }
}

impl View for DownloadJob {
    type V = JobView;

    open spec fn view(&self) -> JobView {
        JobView {
            id: self.id@,
            media_id: self.media_id,
            title: self.title@,
            file_name: self.file_name@,
            target_path: self.target_path@,
            status: self.status@,
            downloaded_bytes: self.downloaded_bytes,
            total_bytes: self.total_bytes,
            created_at: self.created_at@,
            updated_at: self.updated_at@,
            error: opt_view(self.error),
            source_kind: self.source_kind@,
            source_exists: self.source_exists,
            target_exists: self.target_exists,
        }
    }
}

/// A change made to a job while it runs.
#[derive(Debug, Clone)]
pub enum JobUpdate {
    /// The job moves to this status.
    Status(String),
    /// This many bytes have arrived so far.
    Progress(u64),
    /// The transfer finished: all bytes are there and the target exists.
    Complete,
    /// The job failed with this message.
    Fail(String),
}

pub enum UpdateView {
    Status(Seq<char>),
    Progress(u64),
    Complete,
    Fail(Seq<char>),
}

impl View for JobUpdate {
    type V = UpdateView;

    open spec fn view(&self) -> UpdateView {
        match self {
            JobUpdate::Status(s) => UpdateView::Status(s@),
            JobUpdate::Progress(n) => UpdateView::Progress(*n),
            JobUpdate::Complete => UpdateView::Complete,
            JobUpdate::Fail(e) => UpdateView::Fail(e@),
        }
    }
}

/// A new job: queued, nothing downloaded yet, the source present and the
/// target not yet written.
pub open spec fn queued_job(
    id: Seq<char>,
    now: Seq<char>,
    media_id: i64,
    title: Seq<char>,
    file_name: Seq<char>,
    target_path: Seq<char>,
    total_bytes: u64,
    source_kind: Seq<char>,
) -> JobView {
    JobView {
        id,
        media_id,
        title,
        file_name,
        target_path,
        status: "queued"@,
        downloaded_bytes: 0,
        total_bytes,
        created_at: now,
        updated_at: now,
        error: None,
        source_kind,
        source_exists: true,
        target_exists: false,
    }
}

/// A job after a cancellation request at time `now`: an active job becomes
/// cancelled, a finished one is left as it is.
pub open spec fn cancelled_job(j: JobView, now: Seq<char>) -> JobView {
    if active_status(j.status) {
        JobView { status: "cancelled"@, updated_at: now, ..j }
    } else {
        j
    }
}

/// A job after an update at time `now`.
pub open spec fn updated_job(j: JobView, u: UpdateView, now: Seq<char>) -> JobView {
    let changed = match u {
        UpdateView::Status(s) => JobView { status: s, ..j },
        UpdateView::Progress(n) => JobView { downloaded_bytes: n, ..j },
        UpdateView::Complete => JobView {
            status: "completed"@,
            downloaded_bytes: j.total_bytes,
            target_exists: true,
            ..j
        },
        UpdateView::Fail(e) => JobView { status: "failed"@, error: Some(e), ..j },
    };
    JobView { updated_at: now, ..changed }
}

/// A stored job read back when the application starts: a job that was still
/// active was interrupted, and is marked failed with the interruption message.
pub open spec fn restored_job(j: JobView) -> JobView {
    if active_status(j.status) {
        JobView { status: "failed"@, error: Some(INTERRUPTED_MESSAGE@), ..j }
    } else {
        j
    }
}

/// Position of the job with this id, or -1.
pub open spec fn id_index(s: Seq<JobView>, id: Seq<char>) -> int
    decreases s.len(),
{
    if s.len() == 0 {
        -1
    } else if s.last().id == id {
        s.len() - 1
    } else {
        id_index(s.drop_last(), id)
    }
}

/// No two jobs share an id.
pub open spec fn ids_distinct(s: Seq<JobView>) -> bool {
    forall|i: int, j: int| 0 <= i < j < s.len() ==> s[i].id != s[j].id
}

/// The job with this id, if there is one.
pub open spec fn lookup(s: Seq<JobView>, id: Seq<char>) -> Option<JobView> {
    let k = id_index(s, id);
    if k >= 0 {
        Some(s[k])
    } else {
        None
    }
}

/// The jobs with `j` stored under its id: it replaces the job with that id,
/// or comes last.
pub open spec fn with_job(s: Seq<JobView>, j: JobView) -> Seq<JobView> {
    let k = id_index(s, j.id);
    if k >= 0 {
        s.update(k, j)
    } else {
        s.push(j)
    }
}

/// The jobs of `s` that satisfy `keep`, in their order.
pub open spec fn keep_where(s: Seq<JobView>, keep: spec_fn(JobView) -> bool) -> Seq<JobView>
    decreases s.len(),
{
    if s.len() == 0 {
        s
    } else {
        let rest = keep_where(s.drop_last(), keep);
        if keep(s.last()) {
            rest.push(s.last())
        } else {
            rest
        }
    }
}

/// The stored jobs read back in order, each restored, a later job replacing
/// an earlier one with the same id.
pub open spec fn restored_jobs(stored: Seq<JobView>) -> Seq<JobView>
    decreases stored.len(),
{
    if stored.len() == 0 {
        Seq::empty()
    } else {
        with_job(restored_jobs(stored.drop_last()), restored_job(stored.last()))
    }
}

pub proof fn lemma_id_index(s: Seq<JobView>, id: Seq<char>)
    ensures
        -1 <= id_index(s, id) < s.len(),
        id_index(s, id) >= 0 ==> s[id_index(s, id)].id == id,
        id_index(s, id) == -1 ==> forall|i: int| 0 <= i < s.len() ==> #[trigger] s[i].id != id,
        ids_distinct(s) ==> forall|i: int| 0 <= i < s.len() && #[trigger] s[i].id == id ==> id_index(s, id) == i,
    decreases s.len(),
{
    if s.len() > 0 {
        let t = s.drop_last();
        lemma_id_index(t, id);
        if ids_distinct(s) {
            assert(ids_distinct(t));
        }
        if id_index(s, id) == -1 {
            assert forall|i: int| 0 <= i < s.len() implies #[trigger] s[i].id != id by {
                if i < s.len() - 1 {
                    assert(t[i] == s[i]);
                    assert(t[i].id != id);
                }
            }
        }
        if ids_distinct(s) {
            assert forall|i: int| 0 <= i < s.len() && #[trigger] s[i].id == id implies id_index(s, id) == i by {
                if i < s.len() - 1 {
                    assert(t[i] == s[i]);
                    assert(t[i].id == id);
                    assert(s[i].id != s[s.len() - 1].id);
                }
            }
        }
    }
}

/// Storing a job makes it the one found under its id, and leaves the job
/// found under every other id as it was.
pub proof fn lemma_with_job(s: Seq<JobView>, j: JobView)
    requires
        ids_distinct(s),
    ensures
        ids_distinct(with_job(s, j)),
        lookup(with_job(s, j), j.id) == Some(j),
        forall|id: Seq<char>| id != j.id ==> #[trigger] lookup(with_job(s, j), id) == lookup(s, id),
{
    lemma_id_index(s, j.id);
    let t = with_job(s, j);
    assert(ids_distinct(t));
    lemma_id_index(t, j.id);
    if id_index(s, j.id) >= 0 {
        assert(t[id_index(s, j.id)].id == j.id);
    } else {
        assert(t[s.len() as int].id == j.id);
    }
    assert forall|id: Seq<char>| id != j.id implies #[trigger] lookup(with_job(s, j), id) == lookup(s, id) by {
        lemma_id_index(s, id);
        lemma_id_index(t, id);
        if id_index(s, id) >= 0 {
            assert(t[id_index(s, id)].id == id);
        }
        if id_index(t, id) >= 0 {
            let k = id_index(t, id);
            if k < s.len() {
                assert(s[k].id == id);
            }
        }
    }
}

/// The jobs the application holds.
pub struct DownloadManager {
    jobs: Vec<DownloadJob>,
}

/// The plain values of a list of jobs.
pub open spec fn views(v: Seq<DownloadJob>) -> Seq<JobView> {
    v.map_values(|j: DownloadJob| j@)
}

impl View for DownloadManager {
    type V = Seq<JobView>;

    closed spec fn view(&self) -> Seq<JobView> {
        views(self.jobs@)
    }
}

impl DownloadManager {
    /// The store's invariant: no two jobs share an id.
    pub open spec fn wf(&self) -> bool {
        ids_distinct(self@)
    }

    /// An empty store, kept in memory only.
    pub fn new_in_memory() -> (m: Self)
        ensures
            m.wf(),
            m@ == Seq::<JobView>::empty(),
    {
        let m = DownloadManager { jobs: Vec::new() };
        assert(m@ =~= Seq::<JobView>::empty());
        m
    }

    fn find(&self, id: &str) -> (r: Option<usize>)
        requires
            self.wf(),
        ensures
            match r {
                Some(k) => k as int == id_index(self@, id@) && k < self@.len(),
                None => id_index(self@, id@) == -1,
            },
    {
        proof {
            lemma_id_index(self@, id@);
        }
        let target = chars_of(id);
        let mut i: usize = 0;
        while i < self.jobs.len()
            invariant
                i <= self.jobs.len(),
                self@.len() == self.jobs.len(),
                target@ == id@,
                ids_distinct(self@),
                forall|k: int| 0 <= k < i ==> #[trigger] self@[k].id != id@,
            decreases self.jobs.len() - i,
        {
            let candidate = chars_of(self.jobs[i].id.as_str());
            if crate::config::vec_equal(&candidate, &target) {
                proof {
                    assert(self@[i as int].id == id@);
                    lemma_id_index(self@, id@);
                }
                return Some(i);
            }
            i = i + 1;
        }
        proof {
            lemma_id_index(self@, id@);
            if id_index(self@, id@) >= 0 {
                assert(self@[id_index(self@, id@)].id == id@);
            }
        }
        None
    }
}

impl DownloadManager {
    /// The job with this id.
    pub fn get_job(&self, job_id: &str) -> (r: Option<DownloadJob>)
        requires
            self.wf(),
        ensures
            match r {
                Some(j) => lookup(self@, job_id@) == Some(j@),
                None => lookup(self@, job_id@) is None,
            },
    {
        match self.find(job_id) {
            Some(k) => {
                let j = copy_job(&self.jobs[k]);
                assert(self@[k as int] == self.jobs@[k as int]@);
                Some(j)
            },
            None => None,
        }
    }

    /// Stores `job` under its id, replacing a job with the same id.
    fn store(&mut self, job: DownloadJob)
        requires
            old(self).wf(),
        ensures
            final(self).wf(),
            final(self)@ == with_job(old(self)@, job@),
    {
        proof {
            lemma_with_job(old(self)@, job@);
        }
        let id = job.id.clone();
        match self.find(id.as_str()) {
            Some(k) => {
                self.jobs.set(k, job);
            },
            None => {
                self.jobs.push(job);
            },
        }
        assert(self@ =~= with_job(old(self)@, job@));
    }

    /// Creates a queued job under the id and time given, and returns it.
    pub fn create_job_at(
        &mut self,
        id: String,
        now: String,
        media_id: i64,
        title: String,
        file_name: String,
        target_path: String,
        total_bytes: u64,
        source_kind: String,
    ) -> (r: DownloadJob)
        requires
            old(self).wf(),
        ensures
            final(self).wf(),
            r@ == queued_job(id@, now@, media_id, title@, file_name@, target_path@, total_bytes, source_kind@),
            final(self)@ == with_job(old(self)@, r@),
    {
        let job = DownloadJob {
            id,
            media_id,
            title,
            file_name,
            target_path,
            status: "queued".to_owned(),
            downloaded_bytes: 0,
            total_bytes,
            created_at: now.clone(),
            updated_at: now,
            error: None,
            source_kind,
            source_exists: true,
            target_exists: false,
        };
        let stored = copy_job(&job);
        self.store(stored);
        job
    }

    /// Creates a queued job under a fresh random id, stamped with the
    /// current time, and returns it.
    pub fn create_job(
        &mut self,
        media_id: i64,
        title: String,
        file_name: String,
        target_path: String,
        total_bytes: u64,
        source_kind: String,
    ) -> (r: DownloadJob)
        requires
            old(self).wf(),
        ensures
            final(self).wf(),
            r@ == queued_job(r@.id, r@.created_at, media_id, title@, file_name@, target_path@, total_bytes, source_kind@),
            crate::config::uuid_v4_text(r@.id),
            clock_text(r@.created_at),
            final(self)@ == with_job(old(self)@, r@),
    {
        let id = crate::config::new_source_id();
        let now = current_timestamp();
        self.create_job_at(id, now, media_id, title, file_name, target_path, total_bytes, source_kind)
    }

    /// Requests the cancellation of a job at time `now`: an active job
    /// becomes cancelled; a finished one is returned unchanged.
    pub fn cancel_job_at(&mut self, job_id: &str, now: String) -> (r: Result<DownloadJob, String>)
        requires
            old(self).wf(),
        ensures
            final(self).wf(),
            match lookup(old(self)@, job_id@) {
                None => r matches Err(e) && e@ == "Download job not found"@ && final(self)@ == old(self)@,
                Some(j) => r matches Ok(c) && c@ == cancelled_job(j, now@) && final(self)@ == with_job(old(self)@, c@),
            },
    {
        match self.find(job_id) {
            None => Err("Download job not found".to_owned()),
            Some(k) => {
                let mut job = copy_job(&self.jobs[k]);
                assert(self@[k as int] == self.jobs@[k as int]@);
                if is_active_status(job.status.as_str()) {
                    job.status = "cancelled".to_owned();
                    job.updated_at = now;
                }
                assert(job@ == cancelled_job(old(self)@[k as int], now@));
                let stored = copy_job(&job);
                self.store(stored);
                Ok(job)
            },
        }
    }

    /// Requests the cancellation of a job, stamped with the current time.
    pub fn cancel_job(&mut self, job_id: &str) -> (r: Result<DownloadJob, String>)
        requires
            old(self).wf(),
        ensures
            final(self).wf(),
            match lookup(old(self)@, job_id@) {
                None => r matches Err(e) && e@ == "Download job not found"@ && final(self)@ == old(self)@,
                Some(j) => r matches Ok(c) && (exists|now: Seq<char>| clock_text(now) && c@ == cancelled_job(j, now))
                    && final(self)@ == with_job(old(self)@, c@),
            },
    {
        let now = current_timestamp();
        self.cancel_job_at(job_id, now)
    }

    /// Removes a job.
    pub fn delete_job(&mut self, job_id: &str) -> (r: Result<(), String>)
        requires
            old(self).wf(),
        ensures
            final(self).wf(),
            id_index(old(self)@, job_id@) == -1 ==> (r matches Err(e) && e@ == "Download job not found"@
                && final(self)@ == old(self)@),
            id_index(old(self)@, job_id@) >= 0 ==> r is Ok && final(self)@ == old(self)@.remove(
                id_index(old(self)@, job_id@),
            ),
    {
        match self.find(job_id) {
            None => Err("Download job not found".to_owned()),
            Some(k) => {
                self.jobs.remove(k);
                assert(self@ =~= old(self)@.remove(k as int));
                Ok(())
            },
        }
    }

    /// Applies an update to a job at time `now`, and returns the job as it is
    /// afterwards; nothing when there is no such job.
    pub fn update_job_at(&mut self, job_id: &str, update: JobUpdate, now: String) -> (r: Option<DownloadJob>)
        requires
            old(self).wf(),
        ensures
            final(self).wf(),
            match lookup(old(self)@, job_id@) {
                None => r is None && final(self)@ == old(self)@,
                Some(j) => r matches Some(u) && u@ == updated_job(j, update@, now@) && final(self)@
                    == with_job(old(self)@, u@),
            },
    {
        match self.find(job_id) {
            None => None,
            Some(k) => {
                let mut job = copy_job(&self.jobs[k]);
                assert(self@[k as int] == self.jobs@[k as int]@);
                match update {
                    JobUpdate::Status(s) => {
                        job.status = s;
                    },
                    JobUpdate::Progress(n) => {
                        job.downloaded_bytes = n;
                    },
                    JobUpdate::Complete => {
                        job.status = "completed".to_owned();
                        job.downloaded_bytes = job.total_bytes;
                        job.target_exists = true;
                    },
                    JobUpdate::Fail(e) => {
                        job.status = "failed".to_owned();
                        job.error = Some(e);
                    },
                }
                job.updated_at = now;
                assert(job@ == updated_job(old(self)@[k as int], update@, now@));
                let stored = copy_job(&job);
                self.store(stored);
                Some(job)
            },
        }
    }

    /// Applies an update to a job, stamped with the current time.
    pub fn update_job(&mut self, job_id: &str, update: JobUpdate) -> (r: Option<DownloadJob>)
        requires
            old(self).wf(),
        ensures
            final(self).wf(),
            match lookup(old(self)@, job_id@) {
                None => r is None && final(self)@ == old(self)@,
                Some(j) => r matches Some(u) && (exists|now: Seq<char>| clock_text(now) && u@ == updated_job(j, update@, now))
                    && final(self)@ == with_job(old(self)@, u@),
            },
    {
        let now = current_timestamp();
        self.update_job_at(job_id, update, now)
    }
}

/// Whether clearing the history keeps a job: only active jobs stay.
pub open spec fn kept_by_clearing(j: JobView) -> bool {
    active_status(j.status)
}

/// Whether the start-up clean-up at time `now` keeps a job: a finished job
/// goes once it was last updated seven days or more before `now`; a job
/// whose time stamps cannot be read stays.
pub open spec fn kept_at(now: Seq<char>) -> spec_fn(JobView) -> bool {
    |j: JobView|
        !terminal_status(j.status) || match rfc3339_age(j.updated_at, now) {
            None => true,
            Some(a) => a < 604800,
        }
}

/// Whole seconds from `earlier` to `later`, both RFC 3339 texts, as chrono
/// counts them; none when either cannot be read.
pub uninterp spec fn rfc3339_age(earlier: Seq<char>, later: Seq<char>) -> Option<i64>;

/// `chrono::DateTime::parse_from_rfc3339` on both texts, then
/// `signed_duration_since` and `num_seconds` (whole seconds, rounded toward
/// zero). The contract names the result as a function of the two texts.
#[verifier::external_body]
fn age_seconds(earlier: &str, later: &str) -> (r: Option<i64>)
    ensures
        r == rfc3339_age(earlier@, later@),
{
    match (chrono::DateTime::parse_from_rfc3339(earlier), chrono::DateTime::parse_from_rfc3339(later)) {
        (Ok(e), Ok(l)) => Some(l.signed_duration_since(e).num_seconds()),
        _ => None,
    }
}

proof fn lemma_keep_where(s: Seq<JobView>, keep: spec_fn(JobView) -> bool)
    requires
        ids_distinct(s),
    ensures
        ids_distinct(keep_where(s, keep)),
        keep_where(s, keep).len() <= s.len(),
        forall|i: int| 0 <= i < keep_where(s, keep).len() ==> s.contains(#[trigger] keep_where(s, keep)[i])
            && keep(keep_where(s, keep)[i]),
    decreases s.len(),
{
    if s.len() > 0 {
        let t = s.drop_last();
        assert(ids_distinct(t));
        lemma_keep_where(t, keep);
        let rest = keep_where(t, keep);
        assert forall|i: int| 0 <= i < rest.len() implies s.contains(#[trigger] rest[i]) by {
            let m = choose|m: int| 0 <= m < t.len() && t[m] == rest[i];
            assert(s[m] == rest[i]);
        }
        if keep(s.last()) {
            let r = rest.push(s.last());
            assert forall|i: int, j: int| 0 <= i < j < r.len() implies r[i].id != r[j].id by {
                if j == r.len() - 1 {
                    let m = choose|m: int| 0 <= m < t.len() && t[m] == rest[i];
                    assert(s[m] == t[m]);
                    assert(s[m].id != s[s.len() - 1].id);
                }
            }
            assert forall|i: int| 0 <= i < r.len() implies s.contains(#[trigger] r[i]) && keep(r[i]) by {
                if i == r.len() - 1 {
                    assert(s[s.len() - 1] == r[i]);
                }
            }
        }
    }
}

impl DownloadManager {
    fn retain_where(&mut self, Ghost(keep): Ghost<spec_fn(JobView) -> bool>, marks: Vec<bool>)
        requires
            old(self).wf(),
            marks@.len() == old(self)@.len(),
            forall|i: int| 0 <= i < marks@.len() ==> marks@[i] == keep(#[trigger] old(self)@[i]),
        ensures
            final(self).wf(),
            final(self)@ == keep_where(old(self)@, keep),
    {
        let ghost s = self@;
        let mut kept: Vec<DownloadJob> = Vec::new();
        let mut i: usize = 0;
        while i < self.jobs.len()
            invariant
                i <= self.jobs.len(),
                s == self@,
                s.len() == self.jobs.len(),
                marks@.len() == s.len(),
                forall|k: int| 0 <= k < marks@.len() ==> marks@[k] == keep(#[trigger] s[k]),
                views(kept@) == keep_where(s.subrange(0, i as int), keep),
            decreases self.jobs.len() - i,
        {
            assert(s.subrange(0, i + 1).drop_last() =~= s.subrange(0, i as int));
            assert(s[i as int] == self.jobs@[i as int]@);
            if marks[i] {
                let j = copy_job(&self.jobs[i]);
                kept.push(j);
                assert(views(kept@) =~= keep_where(s.subrange(0, i + 1), keep));
            } else {
                assert(keep_where(s.subrange(0, i + 1), keep) == keep_where(s.subrange(0, i as int), keep));
            }
            i = i + 1;
        }
        assert(s.subrange(0, s.len() as int) =~= s);
        proof {
            lemma_keep_where(s, keep);
        }
        self.jobs = kept;
    }

    /// Forgets every job that is not active.
    pub fn clear_history(&mut self)
        requires
            old(self).wf(),
        ensures
            final(self).wf(),
            final(self)@ == keep_where(old(self)@, |j: JobView| kept_by_clearing(j)),
    {
        let mut marks: Vec<bool> = Vec::new();
        let mut i: usize = 0;
        while i < self.jobs.len()
            invariant
                i <= self.jobs.len(),
                self@.len() == self.jobs.len(),
                marks@.len() == i,
                forall|k: int| 0 <= k < i ==> marks@[k] == kept_by_clearing(#[trigger] self@[k]),
            decreases self.jobs.len() - i,
        {
            assert(self@[i as int] == self.jobs@[i as int]@);
            marks.push(is_active_status(self.jobs[i].status.as_str()));
            i = i + 1;
        }
        self.retain_where(Ghost(|j: JobView| kept_by_clearing(j)), marks);
    }

    /// The start-up clean-up at time `now`: finished jobs last updated seven
    /// days or more before are forgotten. Returns how many were.
    pub fn cleanup_terminal_jobs_at(&mut self, now: &str) -> (removed: usize)
        requires
            old(self).wf(),
        ensures
            final(self).wf(),
            final(self)@ == keep_where(old(self)@, kept_at(now@)),
            removed == old(self)@.len() - final(self)@.len(),
    {
        let ghost keep = kept_at(now@);
        let mut marks: Vec<bool> = Vec::new();
        let mut i: usize = 0;
        while i < self.jobs.len()
            invariant
                i <= self.jobs.len(),
                self@.len() == self.jobs.len(),
                marks@.len() == i,
                keep == kept_at(now@),
                forall|k: int| 0 <= k < i ==> marks@[k] == keep(#[trigger] self@[k]),
            decreases self.jobs.len() - i,
        {
            assert(self@[i as int] == self.jobs@[i as int]@);
            let age = age_seconds(self.jobs[i].updated_at.as_str(), now);
            marks.push(crate::download::kept_by_cleanup(self.jobs[i].status.as_str(), age));
            i = i + 1;
        }
        let before = self.jobs.len();
        self.retain_where(Ghost(keep), marks);
        proof {
            lemma_keep_where(old(self)@, keep);
        }
        before - self.jobs.len()
    }

    /// The start-up clean-up, at the current time.
    pub fn cleanup_terminal_jobs(&mut self) -> (removed: usize)
        requires
            old(self).wf(),
        ensures
            final(self).wf(),
            exists|now: Seq<char>| clock_text(now) && final(self)@ == keep_where(old(self)@, kept_at(now)),
            removed == old(self)@.len() - final(self)@.len(),
    {
        let now = current_timestamp();
        self.cleanup_terminal_jobs_at(now.as_str())
    }

    /// The store as read back from saved jobs: each job restored (an active
    /// one marked failed as interrupted), a later job with the same id
    /// replacing an earlier one.
    pub fn restore(stored: Vec<DownloadJob>) -> (m: Self)
        ensures
            m.wf(),
            m@ == restored_jobs(views(stored@)),
    {
        let ghost sv = views(stored@);
        let mut m = DownloadManager::new_in_memory();
        let mut i: usize = 0;
        while i < stored.len()
            invariant
                i <= stored.len(),
                sv == views(stored@),
                m.wf(),
                m@ == restored_jobs(sv.subrange(0, i as int)),
            decreases stored.len() - i,
        {
            assert(sv.subrange(0, i + 1).drop_last() =~= sv.subrange(0, i as int));
            assert(sv[i as int] == stored@[i as int]@);
            let mut job = copy_job(&stored[i]);
            if is_active_status(job.status.as_str()) {
                job.status = "failed".to_owned();
                job.error = Some(INTERRUPTED_MESSAGE.to_owned());
            }
            assert(job@ == restored_job(sv[i as int]));
            m.store(job);
            i = i + 1;
        }
        assert(sv.subrange(0, stored.len() as int) =~= sv);
        m
    }

    /// Every job, in the store's own order (what is saved to disk).
    pub fn snapshots(&self) -> (r: Vec<DownloadJob>)
        ensures
            views(r@) == self@,
    {
        let mut r: Vec<DownloadJob> = Vec::new();
        let mut i: usize = 0;
        while i < self.jobs.len()
            invariant
                i <= self.jobs.len(),
                self@.len() == self.jobs.len(),
                views(r@) == self@.subrange(0, i as int),
            decreases self.jobs.len() - i,
        {
            assert(self@[i as int] == self.jobs@[i as int]@);
            let ghost before = r@;
            let c = copy_job(&self.jobs[i]);
            r.push(c);
            assert(views(before).len() == before.len());
            assert(views(r@) =~= views(before).push(c@));
            assert(views(r@) =~= self@.subrange(0, i + 1));
            i = i + 1;
        }
        assert(self@.subrange(0, self@.len() as int) =~= self@);
        r
    }
}

/// Newest first: no job was created after a job listed before it.
pub open spec fn newest_first(s: Seq<JobView>) -> bool {
    forall|i: int, j: int| 0 <= i < j < s.len() ==> !text_less(#[trigger] s[i].created_at, #[trigger] s[j].created_at)
}

proof fn lemma_insert_keeps_order(v: Seq<JobView>, p: int, x: JobView)
    requires
        newest_first(v),
        0 <= p <= v.len(),
        forall|k: int| 0 <= k < p ==> !text_less(#[trigger] v[k].created_at, x.created_at),
        p < v.len() ==> text_less(v[p].created_at, x.created_at),
    ensures
        newest_first(v.insert(p, x)),
{
    let t = v.insert(p, x);
    assert forall|i: int, j: int| 0 <= i < j < t.len() implies !text_less(#[trigger] t[i].created_at, #[trigger] t[j].created_at) by {
        if j < p {
            assert(t[i] == v[i] && t[j] == v[j]);
        } else if j == p {
            assert(t[i] == v[i]);
        } else if i == p {
            assert(t[j] == v[j - 1]);
            lemma_text_less_transitive(v[p].created_at, x.created_at, v[j - 1].created_at);
            lemma_text_less_transitive(v[p].created_at, v[p].created_at, v[p].created_at);
            if p < j - 1 {
                assert(!text_less(v[p].created_at, v[j - 1].created_at));
            }
        } else if i < p {
            assert(t[i] == v[i] && t[j] == v[j - 1]);
        } else {
            assert(t[i] == v[i - 1] && t[j] == v[j - 1]);
        }
    }
}

/// Where a job created at `created` goes in a newest-first list: after
/// every job not created before it.
fn insert_position(r: &Vec<DownloadJob>, created: &Vec<char>) -> (p: usize)
    ensures
        p <= r@.len(),
        forall|k: int| 0 <= k < p ==> !text_less(#[trigger] r@[k]@.created_at, created@),
        p < r@.len() ==> text_less(r@[p as int]@.created_at, created@),
{
    let mut p: usize = 0;
    while p < r.len()
        invariant
            p <= r@.len(),
            forall|k: int| 0 <= k < p ==> !text_less(#[trigger] r@[k]@.created_at, created@),
        decreases r.len() - p,
    {
        let c = chars_of(r[p].created_at.as_str());
        if less_than(&c, created) {
            return p;
        }
        p = p + 1;
    }
    p
}

impl DownloadManager {
    /// Every job, newest first.
    pub fn list_jobs(&self) -> (r: Vec<DownloadJob>)
        ensures
            views(r@).to_multiset() == self@.to_multiset(),
            newest_first(views(r@)),
    {
        let mut r: Vec<DownloadJob> = Vec::new();
        let mut i: usize = 0;
        assert(views(r@) =~= Seq::<JobView>::empty());
        assert(self@.subrange(0, 0) =~= Seq::<JobView>::empty());
        while i < self.jobs.len()
            invariant
                i <= self.jobs.len(),
                self@.len() == self.jobs.len(),
                views(r@).to_multiset() == self@.subrange(0, i as int).to_multiset(),
                newest_first(views(r@)),
            decreases self.jobs.len() - i,
        {
            assert(self@[i as int] == self.jobs@[i as int]@);
            let c = copy_job(&self.jobs[i]);
            let created = chars_of(c.created_at.as_str());
            let p = insert_position(&r, &created);
            let ghost before = r@;
            proof {
                assert(views(before).len() == before.len());
                assert forall|k: int| 0 <= k < p implies !text_less(#[trigger] views(before)[k].created_at, c@.created_at) by {
                    assert(views(before)[k] == before[k]@);
                }
                if p < before.len() {
                    assert(views(before)[p as int] == before[p as int]@);
                }
                lemma_insert_keeps_order(views(before), p as int, c@);
            }
            r.insert(p, c);
            proof {
                assert(views(r@) =~= views(before).insert(p as int, c@));
                to_multiset_insert(views(before), p as int, c@);
                assert(self@.subrange(0, i + 1) =~= self@.subrange(0, i as int).push(self@[i as int]));
                to_multiset_build(self@.subrange(0, i as int), self@[i as int]);
            }
            i = i + 1;
        }
        assert(self@.subrange(0, self@.len() as int) =~= self@);
        r
    }
}

/// After a delete, no job is found under the deleted id, and the job found
/// under every other id is as it was.
pub proof fn lemma_delete_forgets(s: Seq<JobView>, id: Seq<char>)
    requires
        ids_distinct(s),
        id_index(s, id) >= 0,
    ensures
        ids_distinct(s.remove(id_index(s, id))),
        lookup(s.remove(id_index(s, id)), id) is None,
        forall|other: Seq<char>| other != id ==> #[trigger] lookup(s.remove(id_index(s, id)), other) == lookup(s, other),
{
    let k = id_index(s, id);
    let t = s.remove(k);
    lemma_id_index(s, id);
    assert(ids_distinct(t)) by {
        assert forall|i: int, j: int| 0 <= i < j < t.len() implies t[i].id != t[j].id by {
            let si = if i < k { i } else { i + 1 };
            let sj = if j < k { j } else { j + 1 };
            assert(t[i] == s[si] && t[j] == s[sj]);
        }
    }
    lemma_id_index(t, id);
    if id_index(t, id) >= 0 {
        let m = id_index(t, id);
        let sm = if m < k { m } else { m + 1 };
        assert(t[m] == s[sm]);
    }
    assert forall|other: Seq<char>| other != id implies #[trigger] lookup(t, other) == lookup(s, other) by {
        lemma_id_index(s, other);
        lemma_id_index(t, other);
        if id_index(s, other) >= 0 {
            let a = id_index(s, other);
            assert(a != k);
            let ta = if a < k { a } else { a - 1 };
            assert(t[ta] == s[a]);
        }
        if id_index(t, other) >= 0 {
            let m = id_index(t, other);
            let sm = if m < k { m } else { m + 1 };
            assert(t[m] == s[sm]);
        }
    }
}

/// Filtering keeps exactly the jobs that pass: the job found under an id
/// afterwards is the one found before if it passes, and none otherwise.
pub proof fn lemma_keep_where_lookup(s: Seq<JobView>, keep: spec_fn(JobView) -> bool, id: Seq<char>)
    requires
        ids_distinct(s),
    ensures
        lookup(keep_where(s, keep), id) == (match lookup(s, id) {
            Some(j) => if keep(j) {
                Some(j)
            } else {
                None
            },
            None => None,
        }),
    decreases s.len(),
{
    if s.len() > 0 {
        let t = s.drop_last();
        let x = s.last();
        assert(ids_distinct(t));
        lemma_keep_where_lookup(t, keep, id);
        let rest = keep_where(t, keep);
        lemma_keep_where(t, keep);
        lemma_id_index(t, id);
        lemma_id_index(s, id);
        lemma_id_index(rest, id);
        if keep(x) {
            assert(rest.push(x).drop_last() =~= rest);
        }
        if x.id == id {
            assert forall|i: int| 0 <= i < t.len() implies #[trigger] t[i].id != id by {
                assert(t[i] == s[i]);
            }
            if id_index(rest, id) >= 0 {
                let m = id_index(rest, id);
                let w = choose|w: int| 0 <= w < s.len() && s[w] == rest[m];
                assert(s.contains(rest[m]));
                assert(s[w].id == id);
                assert(w == s.len() - 1);
                assert(keep(rest[m]));
                assert(false) by {
                    assert(lookup(t, id) is None);
                }
            }
        } else {
            if id_index(t, id) >= 0 {
                assert(s[id_index(t, id)] == t[id_index(t, id)]);
            }
        }
    }
}

/// Clearing the history keeps exactly the active jobs.
pub proof fn lemma_clear_history_keeps_active(s: Seq<JobView>, id: Seq<char>)
    requires
        ids_distinct(s),
    ensures
        lookup(keep_where(s, |j: JobView| kept_by_clearing(j)), id) == (match lookup(s, id) {
            Some(j) => if active_status(j.status) {
                Some(j)
            } else {
                None
            },
            None => None,
        }),
{
    lemma_keep_where_lookup(s, |j: JobView| kept_by_clearing(j), id);
}

/// A cancelled job stays cancelled: a second request changes nothing, and a
/// finished job is never touched.
pub proof fn lemma_cancel_settles(j: JobView, first: Seq<char>, second: Seq<char>)
    ensures
        cancelled_job(cancelled_job(j, first), second) == cancelled_job(j, first),
        terminal_status(j.status) ==> cancelled_job(j, first) == j,
        active_status(j.status) ==> terminal_status(cancelled_job(j, first).status),
{
    crate::download::lemma_status_classes(j.status);
}

/// After the stored jobs are read back, none of them is active: whatever
/// was running when the application stopped is reported as failed.
pub proof fn lemma_restore_leaves_nothing_active(stored: Seq<JobView>)
    ensures
        ids_distinct(restored_jobs(stored)),
        forall|i: int| 0 <= i < restored_jobs(stored).len() ==> !active_status(#[trigger] restored_jobs(stored)[i].status),
    decreases stored.len(),
{
    if stored.len() > 0 {
        let prev = restored_jobs(stored.drop_last());
        lemma_restore_leaves_nothing_active(stored.drop_last());
        let x = restored_job(stored.last());
        crate::download::lemma_status_classes(stored.last().status);
        lemma_with_job(prev, x);
        lemma_id_index(prev, x.id);
        let t = with_job(prev, x);
        assert forall|i: int| 0 <= i < t.len() implies !active_status(#[trigger] t[i].status) by {
            if i < prev.len() && i != id_index(prev, x.id) {
                assert(t[i] == prev[i]);
            }
        }
    }
}

/// The start-up clean-up never forgets a job that has not finished.
pub proof fn lemma_cleanup_keeps_unfinished(s: Seq<JobView>, now: Seq<char>, id: Seq<char>)
    requires
        ids_distinct(s),
        lookup(s, id) matches Some(j) && !terminal_status(j.status),
    ensures
        lookup(keep_where(s, kept_at(now)), id) == lookup(s, id),
{
    lemma_keep_where_lookup(s, kept_at(now), id);
}

/// What is known of a time stamp read from the clock: it is not empty, and
/// unless its year is written with a sign (a year past 9999) it reads back
/// as a time zero seconds from itself.
pub open spec fn clock_text(t: Seq<char>) -> bool {
    t.len() > 0 && (t[0] != '+' ==> rfc3339_age(t, t) == Some(0i64))
}

/// The current time as RFC 3339 text (`chrono::Utc::now().to_rfc3339()`).
/// The time itself is the clock's and is left open. What is claimed is what
/// chrono's writer gives every value: a year from 0 to 9999 is written as four
/// digits, and then the text is one that `parse_from_rfc3339` reads back;
/// any other year starts with `+`. (`Utc::now` panics on a clock set before
/// 1970, which no argument of this function can rule out.)
#[verifier::external_body]
fn current_timestamp() -> (r: String)
    ensures
        clock_text(r@),
{
    chrono::Utc::now().to_rfc3339()
}

fn copy_opt(o: &Option<String>) -> (r: Option<String>)
    ensures
        opt_view(r) == opt_view(*o),
{
    match o {
        Some(s) => Some(s.clone()),
        None => None,
    }
}

/// A copy of a job, field by field.
fn copy_job(j: &DownloadJob) -> (r: DownloadJob)
    ensures
        r@ == j@,
{
    DownloadJob {
        id: j.id.clone(),
        media_id: j.media_id,
        title: j.title.clone(),
        file_name: j.file_name.clone(),
        target_path: j.target_path.clone(),
        status: j.status.clone(),
        downloaded_bytes: j.downloaded_bytes,
        total_bytes: j.total_bytes,
        created_at: j.created_at.clone(),
        updated_at: j.updated_at.clone(),
        error: copy_opt(&j.error),
        source_kind: j.source_kind.clone(),
        source_exists: j.source_exists,
        target_exists: j.target_exists,
    }
}

} // verus!
