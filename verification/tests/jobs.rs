use hockeyscraper::calendar_date::CalendarDate;
use hockeyscraper::gameinfo::InternalGameInfo;
use hockeyscraper::jobs::{plan_info_jobs, plan_result_jobs, share_out_games};

fn all_once(jobs: &Vec<Vec<usize>>, amount: usize) -> bool {
    let mut seen: Vec<usize> = jobs.iter().flatten().cloned().collect();
    seen.sort();
    seen == (0..amount).collect::<Vec<usize>>()
}

fn expected_count(amount: usize, requested: usize) -> usize {
    let k = if requested == 0 { 1 } else { requested };
    if amount == 0 { 0 } else if amount < 8 { 1 } else if amount < 16 { 2 } else { k.min(amount) }
}

#[test]
fn few_games_get_one_or_two_jobs() {
    assert_eq!(plan_result_jobs(5, 2), vec![vec![0, 1, 2, 3, 4]]);
    assert_eq!(plan_result_jobs(9, 12), vec![vec![0, 1, 2, 3, 4], vec![5, 6, 7, 8]]);
    assert_eq!(plan_result_jobs(0, 3), Vec::<Vec<usize>>::new());
}

#[test]
fn as_many_jobs_as_asked_for_but_no_more_than_games() {
    let jobs = plan_result_jobs(20, 12);
    assert_eq!(jobs.len(), 12);
    let sizes: Vec<usize> = jobs.iter().map(|j| j.len()).collect();
    assert_eq!(sizes, vec![2, 2, 2, 2, 2, 2, 2, 2, 1, 1, 1, 1]);
    assert!(all_once(&jobs, 20));
    assert_eq!(plan_result_jobs(17, 40).len(), 17);
}

#[test]
fn one_job_when_one_or_none_is_asked_for() {
    let all: Vec<usize> = (0..868).collect();
    assert_eq!(plan_result_jobs(868, 1), vec![all.clone()]);
    assert_eq!(plan_result_jobs(868, 0), vec![all]);
}

#[test]
fn every_game_once_for_many_shapes() {
    for amount in 0..60usize {
        for requested in 0..70usize {
            let jobs = plan_result_jobs(amount, requested);
            assert_eq!(jobs.len(), expected_count(amount, requested));
            assert!(all_once(&jobs, amount), "amount {} requested {}", amount, requested);
            let flat: Vec<usize> = jobs.into_iter().flatten().collect();
            assert_eq!(flat, (0..amount).collect::<Vec<usize>>());
        }
    }
}

#[test]
fn share_out_games_copies_the_planned_games() {
    let games: Vec<InternalGameInfo> = (0..17)
        .map(|i| InternalGameInfo::new(String::from("H"), String::from("A"), 100 + i, CalendarDate::new(1, 1, 2020)))
        .collect();
    let refs: Vec<&InternalGameInfo> = games.iter().collect();
    let shared = share_out_games(&refs, 4);
    let plan = plan_result_jobs(17, 4);
    assert_eq!(shared.len(), plan.len());
    for (job, idxs) in shared.iter().zip(plan.iter()) {
        let ids: Vec<usize> = job.iter().map(|g| g.get_id()).collect();
        let want: Vec<usize> = idxs.iter().map(|i| 100 + i).collect();
        assert_eq!(ids, want);
    }
}

#[test]
fn info_jobs_are_chunks_of_ceiling_size() {
    let ids: Vec<usize> = (100..110).collect();
    let jobs = plan_info_jobs(&ids, 3);
    assert_eq!(jobs, vec![vec![100, 101, 102, 103], vec![104, 105, 106, 107], vec![108, 109]]);
    let jobs = plan_info_jobs(&ids, 5);
    assert_eq!(jobs.len(), 5);
    let jobs = plan_info_jobs(&ids, 0);
    assert_eq!(jobs, vec![ids.clone()]);
    let jobs = plan_info_jobs(&ids, 40);
    assert_eq!(jobs.len(), 10);
    for j in 1..20 {
        let flat: Vec<usize> = plan_info_jobs(&ids, j).into_iter().flatten().collect();
        assert_eq!(flat, ids);
    }
}

#[test]
fn info_chunk_size_matches_float_ceiling() {
    for n in 1..50usize {
        for j in 1..12usize {
            let size = ((n as f64) / (j as f64)).ceil() as usize;
            let ids: Vec<usize> = (0..n).collect();
            let jobs = plan_info_jobs(&ids, j);
            assert_eq!(jobs[0].len(), size.min(n));
        }
    }
}
