use vstd::prelude::*;
use vstd::string::*;

verus! {

/// Why a batch cannot be planned.
#[derive(Debug, PartialEq, Eq, Structural, Clone, Copy)]
pub enum PlanError {
    /// The duration cap gives groups of no files (it is under four seconds).
    InvalidConfig,
}

/// One merge: a group of input files and the index that names its output.
pub struct Job {
    pub inputs: Vec<String>,
    pub index: usize,
}

pub open spec fn digit_char(d: nat) -> char {
    (d + '0' as nat) as char
}

/// Decimal digits of `n`, most significant first, without sign or padding.
pub open spec fn decimal(n: nat) -> Seq<char>
    decreases n,
{
    if n < 10 {
        seq![digit_char(n)]
    } else {
        decimal(n / 10).push(digit_char(n % 10))
    }
}

/// `dir/output_<index>.mp4`
pub open spec fn output_path(dir: Seq<char>, index: nat) -> Seq<char> {
    dir + seq!['/', 'o', 'u', 't', 'p', 'u', 't', '_'] + decimal(index) + seq!['.', 'm', 'p', '4']
}

/// Files merged into one output for a duration cap of `duration` seconds.
pub open spec fn group_size_of(duration: nat) -> nat {
    duration / 4
}

fn digit_str(d: u8) -> (r: &'static str)
    requires
        d < 10,
    ensures
        r@ == seq![digit_char(d as nat)],
{
    proof {
        reveal_strlit("0");
        reveal_strlit("1");
        reveal_strlit("2");
        reveal_strlit("3");
        reveal_strlit("4");
        reveal_strlit("5");
        reveal_strlit("6");
        reveal_strlit("7");
        reveal_strlit("8");
        reveal_strlit("9");
    }
    let r = match d {
        0 => "0",
        1 => "1",
        2 => "2",
        3 => "3",
        4 => "4",
        5 => "5",
        6 => "6",
        7 => "7",
        8 => "8",
        _ => "9",
    };
    assert(r@ =~= seq![digit_char(d as nat)]);
    r
}

/// The decimal digits of `n`.
pub fn decimal_string(n: u64) -> (r: String)
    ensures
        r@ == decimal(n as nat),
{
    let mut ds: Vec<u8> = Vec::new();
    let mut m: u64 = n;
    let ghost tail: Seq<char> = seq![];
    while m >= 10
        invariant
            decimal(n as nat) == decimal(m as nat) + tail,
            tail.len() == ds.len(),
            forall|k: int| 0 <= k < ds.len() ==> #[trigger] ds[k] < 10,
            forall|k: int|
                0 <= k < ds.len() ==> #[trigger] tail[k] == digit_char(
                    ds[ds.len() - 1 - k] as nat,
                ),
        decreases m,
    {
        let d = (m % 10) as u8;
        proof {
            assert(decimal(m as nat) == decimal((m / 10) as nat).push(digit_char(d as nat)));
            tail = seq![digit_char(d as nat)] + tail;
        }
        let ghost old_ds = ds@;
        ds.push(d);
        proof {
            assert forall|k: int| 0 <= k < ds.len() implies #[trigger] tail[k] == digit_char(
                ds[ds.len() - 1 - k] as nat,
            ) by {
                if k > 0 {
                    assert(ds[ds.len() - 1 - k] == old_ds[old_ds.len() - 1 - (k - 1)]);
                }
            }
        }
        m = m / 10;
    }
    let mut out = String::new();
    out.append(digit_str(m as u8));
    let mut k: usize = ds.len();
    assert(out@ =~= decimal(m as nat));
    while k > 0
        invariant
            k <= ds.len(),
            tail.len() == ds.len(),
            forall|q: int| 0 <= q < ds.len() ==> #[trigger] ds[q] < 10,
            forall|q: int|
                0 <= q < ds.len() ==> #[trigger] tail[q] == digit_char(
                    ds[ds.len() - 1 - q] as nat,
                ),
            out@ == decimal(m as nat) + tail.subrange(0, ds.len() - k),
        decreases k,
    {
        let ghost before = out@;
        out.append(digit_str(ds[k - 1]));
        assert(tail.subrange(0, ds.len() - k + 1) =~= tail.subrange(0, ds.len() - k).push(
            tail[ds.len() - k],
        ));
        k -= 1;
    }
    assert(tail.subrange(0, ds.len() as int) =~= tail);
    out
}

/// Jobs that one worker task takes when a task covers about `files_per_task`
/// input files: at least one.
pub fn jobs_per_task(files_per_task: usize, group_size: usize) -> (r: usize)
    requires
        group_size >= 1,
    ensures
        r == if files_per_task / group_size >= 1 {
            files_per_task / group_size
        } else {
            1
        },
        r >= 1,
{
    let j = files_per_task / group_size;
    if j >= 1 {
        j
    } else {
        1
    }
}

/// Input files that a partition into groups of `group_size` leaves out: the
/// trailing ones that do not fill a group.
pub fn dropped_count(n_files: usize, group_size: usize) -> (r: usize)
    requires
        group_size >= 1,
    ensures
        r == n_files % group_size,
        r as nat == n_files as nat - (n_files as nat / group_size as nat) * group_size as nat,
{
    proof {
        lemma_partition_sizes(n_files as nat, group_size as nat);
    }
    n_files % group_size
}

proof fn lemma_partition_sizes(n: nat, g: nat)
    requires
        g >= 1,
    ensures
        (n / g) * g + n % g == n,
{
    assert((n / g) * g + n % g == n) by (nonlinear_arith)
        requires
            g >= 1,
    ;
}

/// Number of files per job for a duration cap; a cap under four seconds is refused.
pub fn group_size(duration: u32) -> (r: Result<usize, PlanError>)
    ensures
        r == if group_size_of(duration as nat) == 0 {
            Err::<usize, PlanError>(PlanError::InvalidConfig)
        } else {
            Ok(group_size_of(duration as nat) as usize)
        },
{
    let g = duration / 4;
    if g == 0 {
        Err(PlanError::InvalidConfig)
    } else {
        Ok(g as usize)
    }
}

/// Path of the output of the job with the given index inside `output_dir`.
pub fn generate_output_path(output_dir: &str, index: usize) -> (r: String)
    ensures
        r@ == output_path(output_dir@, index as nat),
{
    let mut p = String::from_str(output_dir);
    p.append("/output_");
    let d = decimal_string(index as u64);
    p.append(d.as_str());
    p.append(".mp4");
    proof {
        reveal_strlit("/output_");
        reveal_strlit(".mp4");
    }
    assert(p@ =~= output_path(output_dir@, index as nat));
    p
}

/// Job `k` of a partition into groups of `g` holds `files[k*g .. k*g+g]`.
pub open spec fn job_files(files: Seq<Seq<char>>, g: nat, k: nat) -> Seq<Seq<char>> {
    files.subrange((k * g) as int, (k * g + g) as int)
}

/// Position `p` of the file list belongs to a job of a partition into groups of `g`.
pub open spec fn assigned(n: nat, g: nat, p: nat) -> bool {
    p < (n / g) * g
}

/// Partitioning `n` files into groups of `g` makes `n / g` full jobs, each file
/// before the last `n % g` falls into exactly the job `p / g`, and the last
/// `n % g` files fall into none.
pub proof fn lemma_partition_drops_remainder(n: nat, g: nat, p: nat)
    requires
        g >= 1,
        p < n,
    ensures
        (n / g) * g + n % g == n,
        assigned(n, g, p) <==> p + n % g < n,
        assigned(n, g, p) ==> p / g < n / g && (p / g) * g <= p < (p / g) * g + g,
{
    assert((n / g) * g + n % g == n) by (nonlinear_arith)
        requires
            g >= 1,
    ;
    assert(assigned(n, g, p) ==> p / g < n / g && (p / g) * g <= p < (p / g) * g + g) by (
    nonlinear_arith)
        requires
            g >= 1,
            assigned(n, g, p) == (p < (n / g) * g),
    ;
}

proof fn lemma_job_in_bounds(n: nat, g: nat, k: nat)
    requires
        g >= 1,
        k < n / g,
    ensures
        k * g + g <= n,
        k * g + g == (k + 1) * g,
{
    assert(k * g + g <= n) by (nonlinear_arith)
        requires
            g >= 1,
            k < n / g,
    ;
    assert(k * g + g == (k + 1) * g) by (nonlinear_arith);
}

/// Splits `files` into consecutive groups of exactly `group_size` files; a
/// trailing group with fewer files is dropped. Job `k` has index `k`.
pub fn plan_jobs(files: &Vec<String>, group_size: usize) -> (r: Vec<Job>)
    requires
        group_size >= 1,
    ensures
        r.len() == files.len() as nat / group_size as nat,
        forall|k: int|
            0 <= k < r.len() ==> (#[trigger] r[k]).index == k && r[k].inputs.deep_view()
                == job_files(files.deep_view(), group_size as nat, k as nat),
{
    let n_jobs = files.len() / group_size;
    let mut jobs: Vec<Job> = Vec::new();
    let mut k: usize = 0;
    while k < n_jobs
        invariant
            n_jobs == files.len() as nat / group_size as nat,
            group_size >= 1,
            k <= n_jobs,
            jobs.len() == k,
            forall|j: int|
                0 <= j < k ==> (#[trigger] jobs[j]).index == j && jobs[j].inputs.deep_view()
                    == job_files(files.deep_view(), group_size as nat, j as nat),
        decreases n_jobs - k,
    {
        proof {
            lemma_job_in_bounds(files.len() as nat, group_size as nat, k as nat);
        }
        let start = k * group_size;
        let mut inputs: Vec<String> = Vec::new();
        let mut i: usize = 0;
        while i < group_size
            invariant
                start == k * group_size,
                start + group_size <= files.len(),
                i <= group_size,
                inputs.len() == i,
                forall|q: int|
                    0 <= q < i ==> (#[trigger] inputs[q])@ == files[start + q]@,
            decreases group_size - i,
        {
            inputs.push(files[start + i].clone());
            i += 1;
        }
        assert(inputs.deep_view() =~= job_files(files.deep_view(), group_size as nat, k as nat));
        jobs.push(Job { inputs, index: k });
        k += 1;
    }
    jobs
}

proof fn lemma_decimal_nonempty(n: nat)
    ensures
        decimal(n).len() >= 1,
        n >= 10 ==> decimal(n).len() >= 2,
    decreases n,
{
    if n >= 10 {
        lemma_decimal_nonempty(n / 10);
    }
}

proof fn lemma_digit_char_injective(a: nat, b: nat)
    requires
        a < 10,
        b < 10,
        digit_char(a) == digit_char(b),
    ensures
        a == b,
{
    vstd::utf8::char_u32_cast(digit_char(a), digit_char(a) as u32);
    vstd::utf8::char_u32_cast(digit_char(b), digit_char(b) as u32);
}

proof fn lemma_decimal_injective(a: nat, b: nat)
    requires
        decimal(a) == decimal(b),
    ensures
        a == b,
    decreases a,
{
    lemma_decimal_nonempty(a);
    lemma_decimal_nonempty(b);
    if a < 10 && b < 10 {
        assert(decimal(a) == seq![digit_char(a)]);
        assert(decimal(b) == seq![digit_char(b)]);
        assert(seq![digit_char(a)][0] == digit_char(a));
        assert(seq![digit_char(b)][0] == digit_char(b));
        lemma_digit_char_injective(a, b);
    } else if a >= 10 && b >= 10 {
        assert(decimal(a) == decimal(a / 10).push(digit_char(a % 10)));
        assert(decimal(b) == decimal(b / 10).push(digit_char(b % 10)));
        assert(decimal(a).last() == digit_char(a % 10));
        assert(decimal(b).last() == digit_char(b % 10));
        lemma_digit_char_injective(a % 10, b % 10);
        assert(decimal(a).drop_last() =~= decimal(a / 10));
        assert(decimal(b).drop_last() =~= decimal(b / 10));
        lemma_decimal_injective(a / 10, b / 10);
    }
}

/// Distinct job indices give distinct output paths.
pub proof fn lemma_output_path_injective(dir: Seq<char>, a: nat, b: nat)
    requires
        output_path(dir, a) == output_path(dir, b),
    ensures
        a == b,
{
    let pa = output_path(dir, a);
    let pb = output_path(dir, b);
    let lo = dir.len() + 8;
    assert(pa.len() == pb.len());
    assert(pa.subrange(lo as int, pa.len() - 4) =~= decimal(a));
    assert(pb.subrange(lo as int, pb.len() - 4) =~= decimal(b));
    lemma_decimal_injective(a, b);
}

/// Splits jobs `0..n_jobs` into consecutive ranges of `per_task` jobs, the
/// last one possibly shorter; each range is one task for a worker. Range `t`
/// is `[t * per_task, min((t + 1) * per_task, n_jobs))`.
pub fn dispatch_ranges(n_jobs: usize, per_task: usize) -> (r: Vec<(usize, usize)>)
    requires
        per_task >= 1,
    ensures
        r.len() * per_task >= n_jobs,
        r.len() == 0 || (r.len() - 1) * per_task < n_jobs,
        forall|t: int|
            0 <= t < r.len() ==> (#[trigger] r[t]).0 == t * per_task && r[t].1 == if (t + 1)
                * per_task <= n_jobs {
                (t + 1) * per_task
            } else {
                n_jobs as int
            },
{
    let mut out: Vec<(usize, usize)> = Vec::new();
    let mut start: usize = 0;
    assert(out.len() * per_task == 0) by (nonlinear_arith)
        requires
            out.len() == 0,
    ;
    while start < n_jobs
        invariant
            per_task >= 1,
            start <= n_jobs,
            start == if out.len() * per_task <= n_jobs {
                out.len() * per_task
            } else {
                n_jobs as int
            },
            out.len() == 0 || (out.len() - 1) * per_task < n_jobs,
            forall|t: int|
                0 <= t < out.len() ==> (#[trigger] out[t]).0 == t * per_task && out[t].1 == if (t
                    + 1) * per_task <= n_jobs {
                    (t + 1) * per_task
                } else {
                    n_jobs as int
                },
        decreases n_jobs - start,
    {
        let end = if n_jobs - start <= per_task {
            n_jobs
        } else {
            start + per_task
        };
        proof {
            assert((out.len() + 1) * per_task == out.len() * per_task + per_task) by (
            nonlinear_arith);
        }
        out.push((start, end));
        start = end;
    }
    out
}

/// Path of the output of a single-file run inside `output_dir`.
pub fn single_output_path(output_dir: &str) -> (r: String)
    ensures
        r@ == output_dir@ + "/output.mp4"@,
{
    let mut p = String::from_str(output_dir);
    p.append("/output.mp4");
    p
}

} // verus!
