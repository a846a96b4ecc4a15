use vstd::prelude::*;
use vstd::string::*;

use crate::progress::chars_of;

verus! {

/// One entry of a directory listing.
pub struct DirEntryInfo {
    pub path: String,
    pub file_name: String,
    pub is_file: bool,
}

/// Index of the last `.` in `s[0..n]`.
pub open spec fn last_dot(s: Seq<char>, n: int) -> Option<int>
    decreases n,
{
    if n <= 0 {
        None
    } else if s[n - 1] == '.' {
        Some(n - 1)
    } else {
        last_dot(s, n - 1)
    }
}

/// The extension of a file name: what follows its last `.`, unless that dot
/// starts the name.
pub open spec fn extension(name: Seq<char>) -> Option<Seq<char>> {
    match last_dot(name, name.len() as int) {
        Some(p) => if p > 0 {
            Some(name.subrange(p + 1, name.len() as int))
        } else {
            None
        },
        None => None,
    }
}

/// Extensions of the video files a batch takes, compared case-sensitively.
pub open spec fn is_video_extension(e: Seq<char>) -> bool {
    e == "mp4"@ || e == "mov"@ || e == "avi"@ || e == "wmv"@ || e == "flv"@ || e == "mkv"@
}

pub open spec fn is_video_entry(e: DirEntryInfo) -> bool {
    e.is_file && extension(e.file_name@).is_some() && is_video_extension(
        extension(e.file_name@).unwrap(),
    )
}

/// Paths of the video files among `entries`, in listing order.
pub open spec fn video_paths(entries: Seq<DirEntryInfo>) -> Seq<Seq<char>>
    decreases entries.len(),
{
    if entries.len() == 0 {
        seq![]
    } else if is_video_entry(entries.last()) {
        video_paths(entries.drop_last()).push(entries.last().path@)
    } else {
        video_paths(entries.drop_last())
    }
}

fn equals_literal(a: &Vec<char>, from: usize, lit: &str) -> (r: bool)
    requires
        from <= a.len(),
    ensures
        r == (a@.subrange(from as int, a@.len() as int) == lit@),
{
    let b = chars_of(lit);
    if a.len() - from != b.len() {
        return false;
    }
    let mut i: usize = 0;
    while i < b.len()
        invariant
            i <= b.len(),
            a.len() - from == b.len(),
            b@ == lit@,
            forall|k: int| 0 <= k < i ==> a@[from + k] == b@[k],
        decreases b.len() - i,
    {
        if a[from + i] != b[i] {
            assert(a@.subrange(from as int, a@.len() as int)[i as int] != lit@[i as int]);
            return false;
        }
        i += 1;
    }
    assert(a@.subrange(from as int, a@.len() as int) =~= lit@);
    true
}

/// Whether a file name carries one of the video extensions.
pub fn has_video_extension(file_name: &str) -> (r: bool)
    ensures
        r == (extension(file_name@).is_some() && is_video_extension(
            extension(file_name@).unwrap(),
        )),
{
    let cs = chars_of(file_name);
    let mut n: usize = cs.len();
    while n > 0 && cs[n - 1] != '.'
        invariant
            n <= cs.len(),
            last_dot(cs@, cs@.len() as int) == last_dot(cs@, n as int),
        decreases n,
    {
        n -= 1;
    }
    if n <= 1 {
        return false;
    }
    let from = n;
    equals_literal(&cs, from, "mp4") || equals_literal(&cs, from, "mov") || equals_literal(
        &cs,
        from,
        "avi",
    ) || equals_literal(&cs, from, "wmv") || equals_literal(&cs, from, "flv")
        || equals_literal(&cs, from, "mkv")
}

/// The paths of the regular files with a video extension, in listing order.
pub fn select_videos(entries: &Vec<DirEntryInfo>) -> (r: Vec<String>)
    ensures
        r.deep_view() == video_paths(entries@),
{
    let mut out: Vec<String> = Vec::new();
    let mut i: usize = 0;
    while i < entries.len()
        invariant
            i <= entries.len(),
            out.deep_view() == video_paths(entries@.subrange(0, i as int)),
        decreases entries.len() - i,
    {
        let e = &entries[i];
        let ghost pre = entries@.subrange(0, i + 1);
        assert(pre.drop_last() =~= entries@.subrange(0, i as int));
        assert(pre.last() == entries@[i as int]);
        if e.is_file && has_video_extension(e.file_name.as_str()) {
            let ghost before = out.deep_view();
            out.push(e.path.clone());
            assert(out.deep_view() =~= before.push(e.path@));
        }
        i += 1;
    }
    assert(entries@.subrange(0, i as int) =~= entries@);
    out
}

/// Relies on rand's `SliceRandom::shuffle` with `thread_rng`, which only swaps
/// elements: the result holds the same elements.
#[verifier::external_body]
fn shuffle_files(v: &mut Vec<String>)
    ensures
        final(v)@.to_multiset() == old(v)@.to_multiset(),
        final(v)@.len() == old(v)@.len(),
{
    rand::seq::SliceRandom::shuffle(v.as_mut_slice(), &mut rand::thread_rng());
}

/// Puts the files in the order a batch asks for: shuffled for `"random"`,
/// as listed otherwise.
pub fn apply_order(files: &mut Vec<String>, order: &Option<String>)
    ensures
        final(files)@.to_multiset() == old(files)@.to_multiset(),
        final(files)@.len() == old(files)@.len(),
        !(order.is_some() && order.unwrap()@ == "random"@) ==> *final(files) == *old(files),
{
    if let Some(o) = order {
        let random = String::from_str("random");
        if o.eq(&random) {
            shuffle_files(files);
        }
    }
}

/// Whether a single-file job may take this input: it exists and its extension is `mp4`.
pub fn is_valid_single_input(file_name: &str, exists: bool) -> (r: bool)
    ensures
        r == (exists && extension(file_name@) == Some("mp4"@)),
{
    if !exists {
        return false;
    }
    let cs = chars_of(file_name);
    let mut n: usize = cs.len();
    while n > 0 && cs[n - 1] != '.'
        invariant
            n <= cs.len(),
            last_dot(cs@, cs@.len() as int) == last_dot(cs@, n as int),
        decreases n,
    {
        n -= 1;
    }
    if n <= 1 {
        return false;
    }
    equals_literal(&cs, n, "mp4")
}

} // verus!
