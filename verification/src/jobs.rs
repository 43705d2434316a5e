//! How the games of a scraping run are shared out among worker threads.

use vstd::prelude::*;
use crate::gameinfo::InternalGameInfo;

verus! {

/// The views of a sequence of index vectors.
pub open spec fn index_views(r: Seq<Vec<usize>>) -> Seq<Seq<usize>> {
    r.map_values(|x: Vec<usize>| x@)
}

/// How many jobs share out `amount` game results when `requested` jobs are asked for: one
/// for fewer than 8 games and two for fewer than 16; otherwise as many as asked (one when
/// none is asked for), but no more than there are games. No games need no jobs.
pub open spec fn result_job_count(amount: nat, requested: nat) -> nat {
    let k: nat = if requested == 0 { 1 } else { requested };
    if amount == 0 {
        0
    } else if amount < 8 {
        1
    } else if amount < 16 {
        2
    } else if k < amount {
        k
    } else {
        amount
    }
}

/// Where job `c` of `m` jobs over `amount` games starts: every job takes `amount / m` games,
/// and the first `amount % m` jobs take one more.
pub open spec fn job_start(amount: nat, m: nat, c: int) -> int {
    c * ((amount / m) as int) + if c < (amount % m) as int { c } else { (amount % m) as int }
}

/// How many games job `c` of `m` jobs over `amount` games takes.
pub open spec fn job_len(amount: nat, m: nat, c: int) -> int {
    (amount / m) as int + if c < (amount % m) as int { 1int } else { 0int }
}

/// The jobs for `amount` game results, each a run of consecutive indices into the games.
pub open spec fn result_jobs(amount: nat, requested: nat) -> Seq<Seq<usize>> {
    let m = result_job_count(amount, requested);
    Seq::new(
        m,
        |c: int| Seq::new(job_len(amount, m, c) as nat, |j: int| (job_start(amount, m, c) + j) as usize),
    )
}

proof fn lemma_job_step(amount: nat, m: nat, c: int)
    requires
        0 < m <= amount,
        0 <= c < m,
    ensures
        job_start(amount, m, c + 1) == job_start(amount, m, c) + job_len(amount, m, c),
        0 <= job_start(amount, m, c),
        job_start(amount, m, c) + job_len(amount, m, c) <= amount,
        job_len(amount, m, c) >= 1,
        job_start(amount, m, m as int) == amount,
{
    let q = (amount / m) as int;
    let r = (amount % m) as int;
    assert((c + 1) * q == c * q + q) by (nonlinear_arith);
    assert(amount == m * q + r && 0 <= r < m && q >= 1) by (nonlinear_arith)
        requires
            q == (amount / m) as int,
            r == (amount % m) as int,
            0 < m <= amount,
    ;
    assert(0 <= c * q) by (nonlinear_arith)
        requires
            c >= 0,
            q >= 1,
    ;
    assert((c + 1) * q <= m * q) by (nonlinear_arith)
        requires
            c + 1 <= m,
            q >= 1,
    ;
}

/// Shares `amount` game results out among jobs, as indices into the games.
pub fn plan_result_jobs(amount: usize, requested: usize) -> (r: Vec<Vec<usize>>)
    ensures
        index_views(r@) == result_jobs(amount as nat, requested as nat),
{
    let k: usize = if requested == 0 { 1 } else { requested };
    let m: usize = if amount == 0 {
        0
    } else if amount < 8 {
        1
    } else if amount < 16 {
        2
    } else if k < amount {
        k
    } else {
        amount
    };
    let ghost spec_jobs = result_jobs(amount as nat, requested as nat);
    let mut jobs: Vec<Vec<usize>> = Vec::new();
    if m == 0 {
        assert(index_views(jobs@) =~= spec_jobs);
        return jobs;
    }
    let q = amount / m;
    let rem = amount % m;
    let mut start: usize = 0;
    let mut c: usize = 0;
    assert(job_start(amount as nat, m as nat, 0) == 0);
    while c < m
        invariant
            0 < m <= amount,
            m == result_job_count(amount as nat, requested as nat),
            q == amount / m,
            rem == amount % m,
            c <= m,
            start == job_start(amount as nat, m as nat, c as int),
            start <= amount,
            spec_jobs == result_jobs(amount as nat, requested as nat),
            index_views(jobs@) == spec_jobs.subrange(0, c as int),
        decreases m - c,
    {
        proof {
            lemma_job_step(amount as nat, m as nat, c as int);
        }
        let len: usize = if c < rem { q + 1 } else { q };
        let mut job: Vec<usize> = Vec::new();
        let mut j: usize = 0;
        while j < len
            invariant
                j <= len,
                len == job_len(amount as nat, m as nat, c as int),
                start + len <= amount,
                job@ == Seq::new(j as nat, |i: int| (start + i) as usize),
            decreases len - j,
        {
            job.push(start + j);
            j = j + 1;
            assert(job@ =~= Seq::new(j as nat, |i: int| (start + i) as usize));
        }
        let ghost before = jobs@;
        jobs.push(job);
        start = start + len;
        c = c + 1;
        assert(index_views(jobs@) =~= index_views(before).push(job@));
        assert(index_views(jobs@) =~= spec_jobs.subrange(0, c as int));
    }
    assert(spec_jobs.subrange(0, c as int) =~= spec_jobs);
    jobs
}

proof fn lemma_jobs_from(amount: nat, requested: nat, c: int)
    requires
        0 < result_job_count(amount, requested),
        0 <= c <= result_job_count(amount, requested),
    ensures
        ({
            let m = result_job_count(amount, requested);
            result_jobs(amount, requested).subrange(c, m as int).flatten() == Seq::new(
                (amount - job_start(amount, m, c)) as nat,
                |i: int| (job_start(amount, m, c) + i) as usize,
            )
        }),
    decreases result_job_count(amount, requested) - c,
{
    let m = result_job_count(amount, requested);
    let jobs = result_jobs(amount, requested);
    let s = jobs.subrange(c, m as int);
    if c == m {
        lemma_job_step(amount, m, 0);
        assert(s =~= Seq::<Seq<usize>>::empty());
        assert(Seq::new((amount - job_start(amount, m, c)) as nat, |i: int| (job_start(amount, m, c) + i) as usize)
            =~= Seq::<usize>::empty());
    } else {
        lemma_job_step(amount, m, c);
        lemma_jobs_from(amount, requested, c + 1);
        assert(s.drop_first() =~= jobs.subrange(c + 1, m as int));
        assert(s.flatten() == s[0] + s.drop_first().flatten());
        assert(s[0] + s.drop_first().flatten() =~= Seq::new(
            (amount - job_start(amount, m, c)) as nat,
            |i: int| (job_start(amount, m, c) + i) as usize,
        ));
    }
}

/// Every game goes to exactly one job, in order: the jobs put back together are the indices
/// `0..amount`. There are `result_job_count` jobs, and their sizes differ by at most one.
pub proof fn lemma_result_jobs_cover(amount: usize, requested: usize)
    ensures
        result_jobs(amount as nat, requested as nat).flatten() == Seq::new(amount as nat, |i: int| i as usize),
        result_jobs(amount as nat, requested as nat).len() == result_job_count(amount as nat, requested as nat),
        forall|c: int|
            0 <= c < result_jobs(amount as nat, requested as nat).len() ==> amount as nat / result_job_count(
                amount as nat,
                requested as nat,
            ) <= #[trigger] result_jobs(amount as nat, requested as nat)[c].len() <= amount as nat
                / result_job_count(amount as nat, requested as nat) + 1,
{
    let m = result_job_count(amount as nat, requested as nat);
    let jobs = result_jobs(amount as nat, requested as nat);
    if m == 0 {
        assert(jobs =~= Seq::<Seq<usize>>::empty());
        assert(Seq::new(amount as nat, |i: int| i as usize) =~= Seq::<usize>::empty());
    } else {
        lemma_jobs_from(amount as nat, requested as nat, 0);
        lemma_job_step(amount as nat, m, 0);
        assert(jobs.subrange(0, m as int) =~= jobs);
        assert(Seq::new((amount - job_start(amount as nat, m, 0)) as nat, |i: int| (job_start(amount as nat, m, 0) + i) as usize)
            =~= Seq::new(amount as nat, |i: int| i as usize));
    }
}

/// Shares the games out among jobs: job `c` gets copies of the games at the indices of
/// `result_jobs`, in that order.
pub fn share_out_games(games: &Vec<&InternalGameInfo>, requested_jobs: usize) -> (r: Vec<Vec<InternalGameInfo>>)
    ensures
        r@.len() == result_jobs(games@.len(), requested_jobs as nat).len(),
        forall|c: int|
            0 <= c < r@.len() ==> (#[trigger] r@[c])@.len() == result_jobs(games@.len(), requested_jobs as nat)[c].len(),
        forall|c: int, k: int|
            0 <= c < r@.len() && 0 <= k < r@[c]@.len() ==> #[trigger] r@[c]@[k] == *games@[result_jobs(
                games@.len(),
                requested_jobs as nat,
            )[c][k] as int],
{
    let plan = plan_result_jobs(games.len(), requested_jobs);
    let ghost jobs = result_jobs(games@.len(), requested_jobs as nat);
    let ghost m = result_job_count(games@.len(), requested_jobs as nat);
    assert(index_views(plan@) == jobs);
    assert forall|c2: int, k: int| 0 <= c2 < jobs.len() && 0 <= k < jobs[c2].len() implies #[trigger] jobs[c2][k] < games@.len() by {
        lemma_job_step(games@.len(), m, c2);
    }
    let mut r: Vec<Vec<InternalGameInfo>> = Vec::new();
    let mut c: usize = 0;
    while c < plan.len()
        invariant
            c <= plan@.len(),
            index_views(plan@) == jobs,
            plan@.len() == jobs.len(),
            forall|c2: int, k: int|
                0 <= c2 < jobs.len() && 0 <= k < jobs[c2].len() ==> #[trigger] jobs[c2][k] < games@.len(),
            r@.len() == c,
            forall|c2: int| 0 <= c2 < c ==> (#[trigger] r@[c2])@.len() == jobs[c2].len(),
            forall|c2: int, k: int|
                0 <= c2 < c && 0 <= k < r@[c2]@.len() ==> #[trigger] r@[c2]@[k] == *games@[jobs[c2][k] as int],
        decreases plan@.len() - c,
    {
        let job = &plan[c];
        assert(job@ == jobs[c as int]);
        let mut copies: Vec<InternalGameInfo> = Vec::new();
        let mut k: usize = 0;
        while k < job.len()
            invariant
                k <= job@.len(),
                job@ == jobs[c as int],
                0 <= c < jobs.len(),
                forall|k2: int| 0 <= k2 < job@.len() ==> #[trigger] job@[k2] < games@.len(),
                copies@.len() == k,
                forall|k2: int| 0 <= k2 < k ==> #[trigger] copies@[k2] == *games@[job@[k2] as int],
            decreases job@.len() - k,
        {
            assert(jobs[c as int][k as int] < games@.len());
            let g = games[job[k]].make_clone();
            copies.push(g);
            k = k + 1;
        }
        r.push(copies);
        c = c + 1;
    }
    r
}

/// How many ids each job of the game information scrape gets: the ids divided by the jobs,
/// rounded up; with no jobs, all of them in one piece.
pub open spec fn info_chunk_size(n: nat, jobs: nat) -> nat {
    if jobs == 0 {
        usize::MAX as nat
    } else if n % jobs == 0 {
        n / jobs
    } else {
        n / jobs + 1
    }
}

/// `s[start..]` cut into consecutive pieces of `size`, the last one possibly shorter:
/// what `slice::chunks` yields.
pub open spec fn chunks_from(s: Seq<usize>, size: nat, start: int) -> Seq<Seq<usize>>
    decreases s.len() - start,
{
    if size == 0 || start < 0 || start >= s.len() {
        Seq::empty()
    } else {
        let end = if start + size < s.len() {
            start + size
        } else {
            s.len() as int
        };
        seq![s.subrange(start, end)] + chunks_from(s, size, end)
    }
}

/// The jobs for scraping the game information of the ids `ids` with `requested` jobs.
pub open spec fn info_jobs(ids: Seq<usize>, requested: nat) -> Seq<Seq<usize>> {
    chunks_from(ids, info_chunk_size(ids.len(), requested), 0)
}

/// Cuts the ids into the jobs of the game information scrape.
pub fn plan_info_jobs(ids: &Vec<usize>, requested_jobs: usize) -> (r: Vec<Vec<usize>>)
    requires
        ids@.len() >= 1,
    ensures
        index_views(r@) == info_jobs(ids@, requested_jobs as nat),
{
    let n = ids.len();
    let size: usize = if requested_jobs == 0 {
        usize::MAX
    } else if n % requested_jobs == 0 {
        n / requested_jobs
    } else {
        assert(requested_jobs >= 2);
        assert(n / requested_jobs < usize::MAX) by (nonlinear_arith)
            requires
                requested_jobs >= 2,
                n <= usize::MAX,
        ;
        n / requested_jobs + 1
    };
    assert(size > 0) by (nonlinear_arith)
        requires
            n >= 1,
            requested_jobs > 0 ==> (n % requested_jobs == 0 ==> size == n / requested_jobs),
            requested_jobs > 0 ==> (n % requested_jobs != 0 ==> size == n / requested_jobs + 1),
            requested_jobs == 0 ==> size == usize::MAX,
    ;
    let mut r: Vec<Vec<usize>> = Vec::new();
    let mut start: usize = 0;
    while start < n
        invariant
            n == ids@.len(),
            size == info_chunk_size(n as nat, requested_jobs as nat),
            size > 0,
            start <= n,
            info_jobs(ids@, requested_jobs as nat) == index_views(r@) + chunks_from(ids@, size as nat, start as int),
        decreases n - start,
    {
        let end = if n - start > size {
            start + size
        } else {
            n
        };
        let mut piece: Vec<usize> = Vec::new();
        let mut i = start;
        while i < end
            invariant
                start <= i <= end <= n == ids@.len(),
                piece@ == ids@.subrange(start as int, i as int),
            decreases end - i,
        {
            piece.push(ids[i]);
            i = i + 1;
            assert(piece@ =~= ids@.subrange(start as int, i as int));
        }
        let ghost before = r@;
        r.push(piece);
        assert(index_views(r@) =~= index_views(before) + seq![piece@]);
        start = end;
    }
    assert(info_jobs(ids@, requested_jobs as nat) =~= index_views(r@));
    r
}

/// The pieces of `s[start..]` put back together are `s[start..]`.
pub proof fn lemma_chunks_flatten(s: Seq<usize>, size: nat, start: int)
    requires
        size > 0,
        0 <= start <= s.len(),
    ensures
        chunks_from(s, size, start).flatten() == s.subrange(start, s.len() as int),
    decreases s.len() - start,
{
    if start < s.len() {
        let end = if start + size < s.len() {
            start + size
        } else {
            s.len() as int
        };
        lemma_chunks_flatten(s, size, end);
        let c = chunks_from(s, size, start);
        assert(c.drop_first() =~= chunks_from(s, size, end));
        assert(c.first() == s.subrange(start, end));
        assert(s.subrange(start, end) + s.subrange(end, s.len() as int) =~= s.subrange(start, s.len() as int));
    } else {
        assert(s.subrange(start, s.len() as int) =~= Seq::<usize>::empty());
    }
}

/// Every id is scraped by exactly one job, in order: the jobs put back together are the ids.
pub proof fn lemma_info_jobs_cover(ids: Seq<usize>, requested: nat)
    ensures
        info_jobs(ids, requested).flatten() == ids,
{
    if ids.len() == 0 {
        assert(info_jobs(ids, requested) =~= Seq::<Seq<usize>>::empty());
        assert(ids =~= Seq::<usize>::empty());
    } else {
        let size = info_chunk_size(ids.len(), requested);
        assert(size > 0) by (nonlinear_arith)
            requires
                ids.len() >= 1,
                requested > 0 ==> (ids.len() % requested == 0 ==> size == ids.len() / requested),
                requested > 0 ==> (ids.len() % requested != 0 ==> size == ids.len() / requested + 1),
                requested == 0 ==> size == usize::MAX as nat,
        ;
        lemma_chunks_flatten(ids, size, 0);
        assert(ids.subrange(0, ids.len() as int) =~= ids);
    }
}

} // verus!
