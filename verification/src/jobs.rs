//! Background job tracking: job numbers, status changes as processes are polled,
//! `+`/`-` markers, and the lines the `jobs` builtin prints.
//!
//! The processes themselves are held by the caller; a job here is known by its
//! number, and each poll of its process is handed in as a [`PollOutcome`].
use vstd::prelude::*;

use crate::text::{append_str, decimal, push_char, push_decimal, push_spaces, spaces, views};

verus! {

broadcast use vstd::seq_lib::group_to_multiset_ensures;

/// Lifecycle state of a background job.
#[derive(Clone, Copy, PartialEq, Eq, Structural, Debug)]
pub enum Status {
    /// Job has been acknowledged as Done and can be cleaned up.
    Complete,
    /// Process exited since the last poll; printed once then transitions to `Complete`.
    Done,
    /// Process is still running.
    Running,
    /// Polling the process failed; the job will be discarded.
    Unknown,
}

/// What a non-blocking poll of a job's process reported.
#[derive(Clone, Copy, PartialEq, Eq, Structural, Debug)]
pub enum PollOutcome {
    /// The process has exited.
    Exited,
    /// The process is still running.
    StillRunning,
    /// The poll itself failed.
    Failed,
}

/// Shell job-list marker displayed next to a job number (e.g. `[1]+`).
#[derive(Clone, Copy, PartialEq, Eq, Structural, Debug)]
pub enum JobPosition {
    /// Most-recently started job; displayed as `+`.
    Current,
    /// Second-most-recently started job; displayed as `-`.
    Prev,
    /// All older jobs; no marker.
    Untracked,
}

/// The marker one rank below `p`.
pub open spec fn next_position(p: JobPosition) -> JobPosition {
    match p {
        JobPosition::Current => JobPosition::Prev,
        JobPosition::Prev => JobPosition::Untracked,
        JobPosition::Untracked => JobPosition::Untracked,
    }
}

/// The text shown for a marker.
pub open spec fn position_text(p: JobPosition) -> Seq<char> {
    match p {
        JobPosition::Current => seq!['+'],
        JobPosition::Prev => seq!['-'],
        JobPosition::Untracked => seq![' '],
    }
}

/// The status column: two spaces, then the status name left-aligned in seven columns.
pub open spec fn status_text(s: Status) -> Seq<char> {
    match s {
        Status::Complete => "  Complete"@,
        Status::Done => "  Done   "@,
        Status::Running => "  Running"@,
        Status::Unknown => "  Unknown"@,
    }
}

impl JobPosition {
    /// Returns the marker for the job one rank below `curr` in the most-recent ordering.
    pub fn get_next(curr: &JobPosition) -> (r: JobPosition)
        ensures
            r == next_position(*curr),
    {
        match curr {
            JobPosition::Current => JobPosition::Prev,
            JobPosition::Prev => JobPosition::Untracked,
            JobPosition::Untracked => JobPosition::Untracked,
        }
    }

    /// The marker as shown in the job list: `+`, `-` or a space.
    pub fn display_text(&self) -> (r: String)
        ensures
            r@ == position_text(*self),
    {
        let mut s = String::new();
        match self {
            JobPosition::Current => push_char(&mut s, '+'),
            JobPosition::Prev => push_char(&mut s, '-'),
            JobPosition::Untracked => push_char(&mut s, ' '),
        }
        s
    }
}

/// Repeated `get_next` walks Current → Prev → Untracked and stays at Untracked.
pub proof fn law_position_ranks(p: JobPosition)
    ensures
        next_position(next_position(p)) == JobPosition::Untracked,
        next_position(JobPosition::Untracked) == JobPosition::Untracked,
{
}

impl Status {
    /// The status column as shown in the job list.
    pub fn display_text(&self) -> (r: String)
        ensures
            r@ == status_text(*self),
    {
        let mut s = String::new();
        match self {
            Status::Complete => append_str(&mut s, "  Complete"),
            Status::Done => append_str(&mut s, "  Done   "),
            Status::Running => append_str(&mut s, "  Running"),
            Status::Unknown => append_str(&mut s, "  Unknown"),
        }
        s
    }
}

/// The status after a poll reported `p`: an exit is first `Done`, and `Complete`
/// once `Done` has been seen.
pub open spec fn poll_status(old: Status, p: PollOutcome) -> Status {
    match p {
        PollOutcome::Exited => if old == Status::Running {
            Status::Done
        } else {
            Status::Complete
        },
        PollOutcome::StillRunning => Status::Running,
        PollOutcome::Failed => Status::Unknown,
    }
}

/// A single background job entry in the job table.
pub struct Job {
    pub job_num: usize,
    pub job_pos: JobPosition,
    pub cmd: String,
    pub status: Status,
}

/// The padding before the command column: the command is right-aligned in a field
/// as wide as its length in bytes plus 17.
pub open spec fn cmd_padding(cmd: Seq<char>) -> nat {
    let width = (vstd::utf8::encode_utf8(cmd).len() as usize) + 17;
    if width > cmd.len() {
        (width - cmd.len()) as nat
    } else {
        0
    }
}

/// The line shown for a job: `[<num>]<marker><status><padding><cmd>`, then ` &` while it runs.
pub open spec fn job_line(j: Job) -> Seq<char> {
    "["@ + decimal(j.job_num as nat) + "]"@ + position_text(j.job_pos) + status_text(j.status)
        + spaces(cmd_padding(j.cmd@)) + j.cmd@ + if j.status == Status::Running {
        " &"@
    } else {
        Seq::empty()
    }
}

impl Job {
    /// Creates a new `Job` in the `Running` state with `Current` position.
    pub fn new(command: String, job_num: usize) -> (r: Self)
        ensures
            r.job_num == job_num,
            r.job_pos == JobPosition::Current,
            r.cmd@ == command@,
            r.status == Status::Running,
    {
        Self { job_num, job_pos: JobPosition::Current, cmd: command, status: Status::Running }
    }

    /// Records what a poll of the job's process reported and returns the new status.
    pub fn check_status(&mut self, poll: PollOutcome) -> (r: Status)
        ensures
            r == poll_status(old(self).status, poll),
            final(self).status == r,
            final(self).job_num == old(self).job_num,
            final(self).job_pos == old(self).job_pos,
            final(self).cmd == old(self).cmd,
    {
        match poll {
            PollOutcome::Exited => {
                if self.status == Status::Running {
                    self.status = Status::Done;
                } else {
                    self.status = Status::Complete;
                }
            },
            PollOutcome::StillRunning => self.status = Status::Running,
            PollOutcome::Failed => self.status = Status::Unknown,
        }
        self.status
    }

    /// The line shown for this job in the job list.
    pub fn display_text(&self) -> (r: String)
        ensures
            r@ == job_line(*self),
    {
        let mut s = String::new();
        append_str(&mut s, "[");
        push_decimal(&mut s, self.job_num as u64);
        append_str(&mut s, "]");
        let pos = self.job_pos.display_text();
        append_str(&mut s, pos.as_str());
        let st = self.status.display_text();
        append_str(&mut s, st.as_str());
        let bytes = self.cmd.as_str().len();
        let chars = self.cmd.as_str().unicode_len();
        let pad: usize = if bytes >= chars {
            push_spaces(&mut s, bytes - chars);
            17
        } else if chars - bytes < 17 {
            17 - (chars - bytes)
        } else {
            0
        };
        push_spaces(&mut s, pad);
        append_str(&mut s, self.cmd.as_str());
        if self.status == Status::Running {
            append_str(&mut s, " &");
        }
        assert(s@ =~= job_line(*self)) by {
            assert(spaces(cmd_padding(self.cmd@)) =~= if bytes >= chars {
                spaces((bytes - chars) as nat) + spaces(pad as nat)
            } else {
                spaces(pad as nat)
            });
        }
        s
    }
}

/// A job's number, command and status: what a job keeps when the list is reordered.
pub open spec fn job_key(j: Job) -> (usize, Seq<char>, Status) {
    (j.job_num, j.cmd@, j.status)
}

/// The keys of a list of jobs.
pub open spec fn job_keys(s: Seq<Job>) -> Seq<(usize, Seq<char>, Status)> {
    s.map_values(|j: Job| job_key(j))
}

/// Jobs appear in ascending order of number.
pub open spec fn sorted_by_num(s: Seq<Job>) -> bool {
    forall|i: int, j: int| 0 <= i <= j < s.len() ==> s[i].job_num <= s[j].job_num
}

/// No two jobs share a number.
pub open spec fn nums_distinct(s: Seq<Job>) -> bool {
    forall|i: int, j: int| 0 <= i < j < s.len() ==> s[i].job_num != s[j].job_num
}

/// Jobs appear in strictly ascending order of number.
pub open spec fn strictly_sorted_by_num(s: Seq<Job>) -> bool {
    forall|i: int, j: int| 0 <= i < j < s.len() ==> s[i].job_num < s[j].job_num
}

/// The marker of the job at index `k` of a list of `n` jobs in ascending order: the
/// last is current, the one before it previous, all others untracked.
pub open spec fn rank_position(n: int, k: int) -> JobPosition {
    if k == n - 1 {
        JobPosition::Current
    } else if k == n - 2 {
        JobPosition::Prev
    } else {
        JobPosition::Untracked
    }
}

/// `new` is `old` reordered by job number, with markers by rank from the highest number.
pub open spec fn is_job_order(old: Seq<Job>, new: Seq<Job>) -> bool {
    &&& sorted_by_num(new)
    &&& job_keys(new).to_multiset() == job_keys(old).to_multiset()
    &&& forall|k: int| 0 <= k < new.len() ==> (#[trigger] new[k]).job_pos == rank_position(new.len() as int, k)
}

/// `jobs` with each status updated by the poll at the same index.
pub open spec fn polled(jobs: Seq<Job>, polls: Seq<PollOutcome>) -> Seq<Job> {
    Seq::new(
        jobs.len(),
        |i: int| Job { status: poll_status(jobs[i].status, polls[i]), ..jobs[i] },
    )
}

/// The job is still worth showing: it is running, or done but not yet acknowledged.
pub open spec fn is_live(j: Job) -> bool {
    j.status == Status::Done || j.status == Status::Running
}

/// The live jobs of `s`, in order.
pub open spec fn live(s: Seq<Job>) -> Seq<Job>
    decreases s.len(),
{
    if s.len() == 0 {
        Seq::empty()
    } else if is_live(s.last()) {
        live(s.drop_last()).push(s.last())
    } else {
        live(s.drop_last())
    }
}

/// The lines shown for the jobs of `s` that are done, in order.
pub open spec fn done_lines(s: Seq<Job>) -> Seq<Seq<char>>
    decreases s.len(),
{
    if s.len() == 0 {
        Seq::empty()
    } else if s.last().status == Status::Done {
        done_lines(s.drop_last()).push(job_line(s.last()))
    } else {
        done_lines(s.drop_last())
    }
}

/// The job numbers of `s`, in order.
pub open spec fn job_nums(s: Seq<Job>) -> Seq<usize> {
    s.map_values(|j: Job| j.job_num)
}

/// Some job among the first `i` of `s` has number `v`.
pub open spec fn num_used_in(s: Seq<Job>, i: int, v: int) -> bool {
    exists|k: int| 0 <= k < i && (#[trigger] s[k]).job_num == v
}

/// `n` is the lowest positive integer not used as a job number in `s`.
pub open spec fn is_least_free(s: Seq<Job>, n: int) -> bool {
    &&& n >= 1
    &&& forall|k: int| 0 <= k < s.len() ==> (#[trigger] s[k]).job_num != n
    &&& forall|v: int| 1 <= v < n ==> #[trigger] num_used_in(s, s.len() as int, v)
}

/// `c` numbers from 1 up, all in use, need at least `c` jobs.
proof fn lemma_used_prefix_fits(s: Seq<Job>, c: int)
    requires
        c >= 0,
        forall|v: int| 1 <= v <= c ==> #[trigger] num_used_in(s, s.len() as int, v),
    ensures
        c <= s.len(),
{
    let nums = s.map_values(|j: Job| j.job_num as int);
    let r = vstd::set_lib::set_int_range(1, c + 1);
    vstd::set_lib::lemma_int_range(1, c + 1);
    assert forall|v: int| r.contains(v) implies nums.to_set().contains(v) by {
        assert(num_used_in(s, s.len() as int, v));
        let k = choose|k: int| 0 <= k < s.len() && (#[trigger] s[k]).job_num == v;
        assert(nums[k] == v);
    }
    nums.lemma_cardinality_of_set();
    vstd::seq_lib::seq_to_set_is_finite(nums);
    vstd::set_lib::lemma_len_subset(r, nums.to_set());
}

/// Manages the table of background jobs for the current shell session.
pub struct Jobs {
    pub jobs: Vec<Job>,
}

impl Jobs {
    /// Creates an empty job table.
    pub fn new() -> (r: Self)
        ensures
            r.jobs@.len() == 0,
    {
        Self { jobs: Vec::new() }
    }

    /// The job numbers, in table order.
    pub fn job_numbers(&self) -> (r: Vec<usize>)
        ensures
            r@ == job_nums(self.jobs@),
    {
        let mut r: Vec<usize> = Vec::new();
        let mut i: usize = 0;
        while i < self.jobs.len()
            invariant
                i <= self.jobs.len(),
                r@ =~= job_nums(self.jobs@).take(i as int),
            decreases self.jobs.len() - i,
        {
            r.push(self.jobs[i].job_num);
            assert(job_nums(self.jobs@).take(i + 1) =~= job_nums(self.jobs@).take(i as int).push(
                self.jobs@[i as int].job_num,
            ));
            i += 1;
        }
        assert(job_nums(self.jobs@).take(self.jobs.len() as int) =~= job_nums(self.jobs@));
        r
    }

    /// Re-sorts jobs by job number and reassigns `Current`/`Prev`/`Untracked` markers.
    pub fn adjust_job_order(&mut self)
        ensures
            is_job_order(old(self).jobs@, final(self).jobs@),
            nums_distinct(old(self).jobs@) ==> strictly_sorted_by_num(final(self).jobs@),
    {
        let mut rest: Vec<Job> = Vec::new();
        std::mem::swap(&mut rest, &mut self.jobs);
        let ghost orig = rest@;
        let n = rest.len();
        let mut out: Vec<Job> = Vec::new();
        assert(job_keys(out@) =~= Seq::<(usize, Seq<char>, Status)>::empty());
        assert(job_keys(rest@).to_multiset().add(job_keys(out@).to_multiset()) =~= job_keys(
            orig,
        ).to_multiset());
        while rest.len() > 0
            invariant
                out@.len() + rest@.len() == n,
                job_keys(rest@).to_multiset().add(job_keys(out@).to_multiset()) == job_keys(
                    orig,
                ).to_multiset(),
                sorted_by_num(out@),
                forall|a: int, b: int|
                    0 <= a < out@.len() && 0 <= b < rest@.len() ==> out@[a].job_num
                        <= rest@[b].job_num,
                forall|k: int| 0 <= k < out@.len() ==> (#[trigger] out@[k]).job_pos == rank_position(n as int, k),
                nums_distinct(orig) ==> {
                    &&& nums_distinct(rest@)
                    &&& strictly_sorted_by_num(out@)
                    &&& forall|a: int, b: int|
                        0 <= a < out@.len() && 0 <= b < rest@.len() ==> out@[a].job_num
                            < rest@[b].job_num
                },
            decreases rest.len(),
        {
            // the first job with the lowest number
            let mut m: usize = 0;
            let mut i: usize = 1;
            while i < rest.len()
                invariant
                    m < i <= rest.len(),
                    forall|b: int| 0 <= b < i ==> rest@[m as int].job_num <= rest@[b].job_num,
                decreases rest.len() - i,
            {
                if rest[i].job_num < rest[m].job_num {
                    m = i;
                }
                i += 1;
            }
            let ghost before_rest = rest@;
            let ghost before_out = out@;
            let mut job = rest.remove(m);
            let k = out.len();
            job.job_pos = if k + 1 == n {
                JobPosition::Current
            } else if k + 2 == n {
                JobPosition::Prev
            } else {
                JobPosition::Untracked
            };
            out.push(job);
            proof {
                assert(job_keys(rest@) =~= job_keys(before_rest).remove(m as int));
                assert(job_keys(out@) =~= job_keys(before_out).push(job_key(before_rest[m as int])));
                assert(job_keys(before_rest)[m as int] == job_key(before_rest[m as int]));
                assert(job_keys(rest@).to_multiset().add(job_keys(out@).to_multiset()) =~= job_keys(
                    orig,
                ).to_multiset());
                assert forall|a: int, b: int|
                    0 <= a < out@.len() && 0 <= b < rest@.len() implies out@[a].job_num
                        <= rest@[b].job_num by {
                    let b0 = if b < m { b } else { b + 1 };
                    assert(rest@[b] == before_rest[b0]);
                }
                if nums_distinct(orig) {
                    assert forall|i: int, j: int| 0 <= i < j < rest@.len() implies rest@[i].job_num
                        != rest@[j].job_num by {
                        let i0 = if i < m { i } else { i + 1 };
                        let j0 = if j < m { j } else { j + 1 };
                        assert(rest@[i] == before_rest[i0]);
                        assert(rest@[j] == before_rest[j0]);
                    }
                    assert forall|a: int, b: int|
                        0 <= a < out@.len() && 0 <= b < rest@.len() implies out@[a].job_num
                            < rest@[b].job_num by {
                        let b0 = if b < m { b } else { b + 1 };
                        assert(rest@[b] == before_rest[b0]);
                        assert(b0 != m);
                        assert(before_rest[m as int].job_num <= before_rest[b0].job_num);
                        if a < before_out.len() {
                            assert(out@[a] == before_out[a]);
                        }
                    }
                    assert forall|i: int, j: int| 0 <= i < j < out@.len() implies out@[i].job_num
                        < out@[j].job_num by {
                        if j == before_out.len() {
                            assert(out@[i] == before_out[i]);
                        } else {
                            assert(out@[i] == before_out[i]);
                            assert(out@[j] == before_out[j]);
                        }
                    }
                }
            }
        }
        assert(job_keys(rest@) =~= Seq::<(usize, Seq<char>, Status)>::empty());
        assert(job_keys(out@).to_multiset() =~= job_keys(orig).to_multiset());
        self.jobs = out;
    }

    /// Records the poll outcome of every job (`polls[i]` for the job at index `i`).
    fn apply_polls(&mut self, polls: &Vec<PollOutcome>)
        requires
            polls@.len() == old(self).jobs@.len(),
        ensures
            final(self).jobs@ == polled(old(self).jobs@, polls@),
    {
        let mut rest: Vec<Job> = Vec::new();
        std::mem::swap(&mut rest, &mut self.jobs);
        let ghost orig = rest@;
        let mut out: Vec<Job> = Vec::new();
        let mut i: usize = 0;
        while i < polls.len()
            invariant
                i <= polls.len() == orig.len(),
                out@ =~= polled(orig, polls@).take(i as int),
                rest@ =~= orig.skip(i as int),
            decreases polls.len() - i,
        {
            let mut job = rest.remove(0);
            job.check_status(polls[i]);
            out.push(job);
            i += 1;
        }
        assert(polled(orig, polls@).take(polls.len() as int) =~= polled(orig, polls@));
        self.jobs = out;
    }

    /// Polls every job and returns a status line for any that have just finished.
    pub fn check_done_jobs(&mut self, polls: &Vec<PollOutcome>) -> (r: Vec<String>)
        requires
            polls@.len() == old(self).jobs@.len(),
        ensures
            final(self).jobs@ == polled(old(self).jobs@, polls@),
            views(r@) == done_lines(final(self).jobs@),
    {
        self.apply_polls(polls);
        let mut lines: Vec<String> = Vec::new();
        let mut i: usize = 0;
        while i < self.jobs.len()
            invariant
                i <= self.jobs.len(),
                views(lines@) == done_lines(self.jobs@.take(i as int)),
            decreases self.jobs.len() - i,
        {
            assert(self.jobs@.take(i + 1).drop_last() =~= self.jobs@.take(i as int));
            if self.jobs[i].status == Status::Done {
                let ghost before = lines@;
                lines.push(self.jobs[i].display_text());
                assert(views(lines@) =~= views(before).push(job_line(self.jobs@[i as int])));
            }
            i += 1;
        }
        assert(self.jobs@.take(self.jobs.len() as int) =~= self.jobs@);
        lines
    }

    /// Polls all jobs, removes finished or errored ones, and recalculates position markers.
    pub fn check_jobs(&mut self, polls: &Vec<PollOutcome>)
        requires
            polls@.len() == old(self).jobs@.len(),
        ensures
            is_job_order(live(polled(old(self).jobs@, polls@)), final(self).jobs@),
            nums_distinct(old(self).jobs@) ==> strictly_sorted_by_num(final(self).jobs@),
    {
        proof {
            lemma_polled_distinct(old(self).jobs@, polls@);
            lemma_live_distinct(polled(old(self).jobs@, polls@));
        }
        self.apply_polls(polls);
        let mut rest: Vec<Job> = Vec::new();
        std::mem::swap(&mut rest, &mut self.jobs);
        let ghost all = rest@;
        let mut kept: Vec<Job> = Vec::new();
        let mut i: usize = 0;
        let n = rest.len();
        while i < n
            invariant
                i <= n == all.len(),
                rest@ =~= all.skip(i as int),
                kept@ =~= live(all.take(i as int)),
            decreases n - i,
        {
            assert(all.take(i + 1).drop_last() =~= all.take(i as int));
            let job = rest.remove(0);
            if job.status == Status::Done || job.status == Status::Running {
                kept.push(job);
            }
            i += 1;
        }
        assert(all.take(n as int) =~= all);
        self.jobs = kept;
        self.adjust_job_order();
    }

    /// Adds a newly started background job with process id `pid` to the table (after
    /// polling the others) and returns the line announcing it: `[<job number>] <pid>`.
    pub fn track(&mut self, polls: &Vec<PollOutcome>, command: String, pid: u32) -> (r: String)
        requires
            polls@.len() == old(self).jobs@.len(),
            old(self).jobs@.len() < usize::MAX,
        ensures
            final(self).jobs@.len() > 0,
            is_job_order(live(polled(old(self).jobs@, polls@)), final(self).jobs@.drop_last()),
            is_least_free(final(self).jobs@.drop_last(), final(self).jobs@.last().job_num as int),
            final(self).jobs@.last().job_pos == JobPosition::Current,
            final(self).jobs@.last().cmd@ == command@,
            final(self).jobs@.last().status == Status::Running,
            nums_distinct(old(self).jobs@) ==> nums_distinct(final(self).jobs@),
            r@ == seq!['['] + decimal(final(self).jobs@.last().job_num as nat) + seq![']', ' ']
                + decimal(pid as nat),
    {
        self.check_jobs(polls);
        proof {
            lemma_live_len(polled(old(self).jobs@, polls@));
            assert(job_keys(self.jobs@).to_multiset().len() == self.jobs@.len());
        }
        let job_num = self.get_next_job_num();
        let ghost mid = self.jobs@;
        self.jobs.push(Job::new(command, job_num));
        assert(self.jobs@.drop_last() =~= mid);
        proof {
            if nums_distinct(old(self).jobs@) {
                assert forall|i: int, j: int| 0 <= i < j < self.jobs@.len() implies self.jobs@[i].job_num
                    != self.jobs@[j].job_num by {
                    assert(self.jobs@[i] == mid[i]);
                    if j < mid.len() {
                        assert(self.jobs@[j] == mid[j]);
                    }
                }
            }
        }
        let mut line = String::new();
        push_char(&mut line, '[');
        push_decimal(&mut line, job_num as u64);
        push_char(&mut line, ']');
        push_char(&mut line, ' ');
        push_decimal(&mut line, pid as u64);
        line
    }

    /// Returns the lowest positive integer not already used as a job number.
    pub fn get_next_job_num(&self) -> (r: usize)
        requires
            self.jobs@.len() < usize::MAX,
        ensures
            is_least_free(self.jobs@, r as int),
    {
        let n = self.jobs.len();
        let mut cand: usize = 1;
        loop
            invariant
                n == self.jobs@.len() < usize::MAX,
                1 <= cand <= n + 1,
                forall|v: int| 1 <= v < cand ==> #[trigger] num_used_in(self.jobs@, n as int, v),
            decreases n + 1 - cand,
        {
            let mut i: usize = 0;
            let mut found = false;
            while i < n && !found
                invariant
                    n == self.jobs@.len(),
                    i <= n,
                    found ==> num_used_in(self.jobs@, n as int, cand as int),
                    !found ==> forall|k: int| 0 <= k < i ==> (#[trigger] self.jobs@[k]).job_num != cand,
                decreases n - i + (if found { 0int } else { 1int }),
            {
                if self.jobs[i].job_num == cand {
                    found = true;
                    assert(self.jobs@[i as int].job_num == cand);
                } else {
                    i += 1;
                }
            }
            if !found {
                return cand;
            }
            proof {
                lemma_used_prefix_fits(self.jobs@, cand as int);
            }
            cand += 1;
        }
    }

    /// Polls all jobs, drops finished ones, and returns the job table's lines (the
    /// `jobs` builtin).
    pub fn print_jobs(&mut self, polls: &Vec<PollOutcome>) -> (r: Vec<String>)
        requires
            polls@.len() == old(self).jobs@.len(),
        ensures
            is_job_order(live(polled(old(self).jobs@, polls@)), final(self).jobs@),
            views(r@) == final(self).jobs@.map_values(|j: Job| job_line(j)),
    {
        self.check_jobs(polls);
        let mut lines: Vec<String> = Vec::new();
        let mut i: usize = 0;
        while i < self.jobs.len()
            invariant
                i <= self.jobs.len(),
                views(lines@) =~= self.jobs@.map_values(|j: Job| job_line(j)).take(i as int),
            decreases self.jobs.len() - i,
        {
            let ghost before = lines@;
            lines.push(self.jobs[i].display_text());
            assert(views(lines@) =~= views(before).push(job_line(self.jobs@[i as int])));
            i += 1;
        }
        lines
    }
}

/// Polling leaves job numbers as they were.
proof fn lemma_polled_distinct(s: Seq<Job>, polls: Seq<PollOutcome>)
    ensures
        nums_distinct(s) ==> nums_distinct(polled(s, polls)),
{
}

/// Every live job of `s` is a job of `s`, and keeping the live ones keeps numbers distinct.
proof fn lemma_live_distinct(s: Seq<Job>)
    ensures
        forall|i: int| 0 <= i < live(s).len() ==> s.contains(#[trigger] live(s)[i]),
        nums_distinct(s) ==> nums_distinct(live(s)),
    decreases s.len(),
{
    if s.len() > 0 {
        let t = s.drop_last();
        lemma_live_distinct(t);
        assert forall|i: int| 0 <= i < live(t).len() implies s.contains(#[trigger] live(t)[i]) by {
            let k = choose|k: int| 0 <= k < t.len() && t[k] == live(t)[i];
            assert(s[k] == t[k]);
        }
        if is_live(s.last()) {
            assert(s[s.len() - 1] == s.last());
            if nums_distinct(s) {
                assert forall|i: int| 0 <= i < live(t).len() implies (#[trigger] live(t)[i]).job_num
                    != s.last().job_num by {
                    let k = choose|k: int| 0 <= k < t.len() && t[k] == live(t)[i];
                    assert(s[k] == t[k]);
                }
            }
        }
    }
}

/// Keeping the live jobs never lengthens the list.
proof fn lemma_live_len(s: Seq<Job>)
    ensures
        live(s).len() <= s.len(),
    decreases s.len(),
{
    if s.len() > 0 {
        lemma_live_len(s.drop_last());
    }
}

/// A finished job is reported once: the first poll after its exit makes it `Done`
/// (still shown), the next makes it `Complete` (dropped from the table).
pub proof fn law_exit_reported_once(j: Job)
    requires
        j.status == Status::Running,
    ensures
        poll_status(j.status, PollOutcome::Exited) == Status::Done,
        poll_status(poll_status(j.status, PollOutcome::Exited), PollOutcome::Exited) == Status::Complete,
        is_live(Job { status: Status::Done, ..j }),
        !is_live(Job { status: Status::Complete, ..j }),
{
}

} // verus!
