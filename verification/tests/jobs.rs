use shell::jobs::{Job, JobPosition, Jobs, PollOutcome, Status};

fn jobs_with_nums(nums: &[usize]) -> Jobs {
    let mut j = Jobs::new();
    for &n in nums {
        j.jobs.push(Job::new("sleep 1000".to_string(), n));
    }
    j
}

// --- get_next_job_num ---

#[test]
fn test_empty_returns_one() {
    assert_eq!(Jobs::new().get_next_job_num(), 1);
}

#[test]
fn test_sequential_returns_next() {
    // [1, 2, 3] → 4
    assert_eq!(jobs_with_nums(&[1, 2, 3]).get_next_job_num(), 4);
}

#[test]
fn test_gap_at_end_fills_gap() {
    // [1, 2, 4] → 3
    assert_eq!(jobs_with_nums(&[1, 2, 4]).get_next_job_num(), 3);
}

#[test]
fn test_gap_at_start_returns_one() {
    // [2, 3, 4] → 1
    assert_eq!(jobs_with_nums(&[2, 3, 4]).get_next_job_num(), 1);
}

#[test]
fn test_single_job_one_returns_two() {
    assert_eq!(jobs_with_nums(&[1]).get_next_job_num(), 2);
}

#[test]
fn test_single_job_not_one_returns_one() {
    assert_eq!(jobs_with_nums(&[2]).get_next_job_num(), 1);
}

#[test]
fn test_gap_in_middle() {
    assert_eq!(jobs_with_nums(&[1, 3]).get_next_job_num(), 2);
}

#[test]
fn test_large_gap_returns_first_hole() {
    assert_eq!(jobs_with_nums(&[1, 2, 5, 6]).get_next_job_num(), 3);
}

#[test]
fn job_position_walks_down() {
    assert_eq!(JobPosition::get_next(&JobPosition::Current), JobPosition::Prev);
    assert_eq!(JobPosition::get_next(&JobPosition::Prev), JobPosition::Untracked);
    assert_eq!(JobPosition::get_next(&JobPosition::Untracked), JobPosition::Untracked);
}

#[test]
fn status_changes_on_polls() {
    let mut j = Job::new("x".to_string(), 1);
    assert_eq!(j.check_status(PollOutcome::StillRunning), Status::Running);
    assert_eq!(j.check_status(PollOutcome::Exited), Status::Done);
    assert_eq!(j.check_status(PollOutcome::Exited), Status::Complete);
    assert_eq!(j.check_status(PollOutcome::Failed), Status::Unknown);
}

#[test]
fn job_line_format() {
    let mut j = Job::new("sleep 1000".to_string(), 1);
    assert_eq!(j.display_text(), "[1]+  Running                 sleep 1000 &");
    j.status = Status::Done;
    j.job_pos = JobPosition::Prev;
    assert_eq!(j.display_text(), "[1]-  Done                    sleep 1000");
    j.status = Status::Complete;
    j.job_pos = JobPosition::Untracked;
    j.job_num = 12;
    assert_eq!(j.display_text(), "[12]   Complete                 sleep 1000");
}

#[test]
fn job_line_non_ascii_padding() {
    // the width counts bytes of the command plus 17; padding counts characters
    let j = Job::new("é".to_string(), 3);
    let line = j.display_text();
    assert_eq!(line, format!("[3]+  Running{}é &", " ".repeat(18)));
}

#[test]
fn adjust_order_sorts_and_marks() {
    let mut jobs = jobs_with_nums(&[3, 1, 2]);
    jobs.adjust_job_order();
    let nums: Vec<usize> = jobs.jobs.iter().map(|j| j.job_num).collect();
    assert_eq!(nums, vec![1, 2, 3]);
    let pos: Vec<JobPosition> = jobs.jobs.iter().map(|j| j.job_pos).collect();
    assert_eq!(pos, vec![JobPosition::Untracked, JobPosition::Prev, JobPosition::Current]);
}

#[test]
fn check_jobs_drops_finished_and_failed() {
    let mut jobs = jobs_with_nums(&[1, 2, 3, 4]);
    jobs.jobs[1].status = Status::Done;
    // job 1 exits (→ Done, kept), job 2 was Done and is polled again (→ Complete, dropped),
    // job 3 poll fails (→ Unknown, dropped), job 4 runs on
    jobs.check_jobs(&vec![
        PollOutcome::Exited,
        PollOutcome::Exited,
        PollOutcome::Failed,
        PollOutcome::StillRunning,
    ]);
    let nums: Vec<usize> = jobs.jobs.iter().map(|j| j.job_num).collect();
    assert_eq!(nums, vec![1, 4]);
    assert_eq!(jobs.jobs[0].status, Status::Done);
    assert_eq!(jobs.jobs[0].job_pos, JobPosition::Prev);
    assert_eq!(jobs.jobs[1].job_pos, JobPosition::Current);
}

#[test]
fn check_done_jobs_reports_newly_finished_once() {
    let mut jobs = jobs_with_nums(&[1, 2]);
    let lines = jobs.check_done_jobs(&vec![PollOutcome::Exited, PollOutcome::StillRunning]);
    assert_eq!(lines.len(), 1);
    assert!(lines[0].starts_with("[1]"));
    assert!(lines[0].contains("Done"));
    let lines = jobs.check_done_jobs(&vec![PollOutcome::Exited, PollOutcome::StillRunning]);
    assert!(lines.is_empty());
}

#[test]
fn track_assigns_lowest_free_number() {
    let mut jobs = Jobs::new();
    let line = jobs.track(&vec![], "sleep 5".to_string(), 4242);
    assert_eq!(line, "[1] 4242");
    let polls = vec![PollOutcome::StillRunning];
    let line = jobs.track(&polls, "sleep 6".to_string(), 4243);
    assert_eq!(line, "[2] 4243");
    // job 1 finishes and is acknowledged; the next job takes number 1 again
    jobs.check_jobs(&vec![PollOutcome::Exited, PollOutcome::StillRunning]);
    jobs.check_jobs(&vec![PollOutcome::Exited, PollOutcome::StillRunning]);
    assert_eq!(jobs.jobs.len(), 1);
    let line = jobs.track(&vec![PollOutcome::StillRunning], "sleep 7".to_string(), 4244);
    assert_eq!(line, "[1] 4244");
    assert_eq!(jobs.jobs.last().unwrap().job_num, 1);
    assert_eq!(jobs.jobs.last().unwrap().cmd, "sleep 7");
}

#[test]
fn print_jobs_lists_table() {
    let mut jobs = jobs_with_nums(&[2, 1]);
    let lines = jobs.print_jobs(&vec![PollOutcome::StillRunning, PollOutcome::StillRunning]);
    assert_eq!(
        lines,
        vec![
            "[1]-  Running                 sleep 1000 &".to_string(),
            "[2]+  Running                 sleep 1000 &".to_string(),
        ]
    );
}

#[test]
fn next_job_num_ignores_table_order() {
    assert_eq!(jobs_with_nums(&[2, 1]).get_next_job_num(), 3);
    assert_eq!(jobs_with_nums(&[3, 1]).get_next_job_num(), 2);
    assert_eq!(jobs_with_nums(&[4, 2, 1]).get_next_job_num(), 3);
}

#[test]
fn check_jobs_orders_distinct_numbers_strictly() {
    let mut jobs = jobs_with_nums(&[5, 2, 9, 1]);
    jobs.check_jobs(&vec![PollOutcome::StillRunning; 4]);
    let nums: Vec<usize> = jobs.jobs.iter().map(|j| j.job_num).collect();
    assert_eq!(nums, vec![1, 2, 5, 9]);
}
