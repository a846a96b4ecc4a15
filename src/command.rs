use vstd::prelude::*;
use vstd::string::*;

use crate::plan::{decimal, decimal_string};
use crate::probe::{canvas_for, canvas_spec, VideoDimensions};

verus! {

/// `-t <duration>` where the job has a duration cap.
pub open spec fn cap_args(duration: nat) -> Seq<Seq<char>> {
    if duration > 0 {
        seq!["-t"@, decimal(duration)]
    } else {
        seq![]
    }
}

/// Arguments of a single-file job: the video track is copied as it is; with an
/// audio file the audio is re-encoded and the output ends with the shorter
/// stream, without one every stream is copied.
pub open spec fn single_file_args(
    input: Seq<char>,
    output: Seq<char>,
    duration: nat,
    audio: Option<Seq<char>>,
) -> Seq<Seq<char>> {
    seq!["-i"@, input] + match audio {
        Some(a) => seq![
            "-i"@,
            a,
            "-c:v"@,
            "copy"@,
            "-c:a"@,
            "aac"@,
            "-b:a"@,
            "128k"@,
            "-shortest"@,
        ],
        None => seq!["-c"@, "copy"@],
    } + cap_args(duration) + seq!["-y"@, output]
}

/// `-i <file>` for each input, in order.
pub open spec fn input_args(files: Seq<Seq<char>>) -> Seq<Seq<char>>
    decreases files.len(),
{
    if files.len() == 0 {
        seq![]
    } else {
        input_args(files.drop_last()) + seq!["-i"@, files.last()]
    }
}

/// Filter for input `i`: reset timestamps, scale into the canvas keeping the
/// aspect ratio, and pad to the canvas, centred.
pub open spec fn scale_filter(i: nat, w: nat, h: nat) -> Seq<char> {
    "["@ + decimal(i) + ":v]setpts=PTS-STARTPTS,scale="@ + decimal(w) + ":"@ + decimal(h)
        + ":force_original_aspect_ratio=decrease,pad="@ + decimal(w) + ":"@ + decimal(h)
        + ":(ow-iw)/2:(oh-ih)/2[v"@ + decimal(i) + "];"@
}

pub open spec fn scale_filters(n: nat, w: nat, h: nat) -> Seq<char>
    decreases n,
{
    if n == 0 {
        seq![]
    } else {
        scale_filters((n - 1) as nat, w, h) + scale_filter((n - 1) as nat, w, h)
    }
}

pub open spec fn concat_labels(n: nat) -> Seq<char>
    decreases n,
{
    if n == 0 {
        seq![]
    } else {
        concat_labels((n - 1) as nat) + "[v"@ + decimal((n - 1) as nat) + "]"@
    }
}

/// The filter graph that scales and pads `n` inputs and joins them, video only.
pub open spec fn filter_graph(n: nat, w: nat, h: nat) -> Seq<char> {
    scale_filters(n, w, h) + concat_labels(n) + "concat=n="@ + decimal(n) + ":v=1:a=0[outv]"@
}

/// Arguments of a job that merges several files onto the canvas chosen from
/// the first file's size, re-encoding the video.
pub open spec fn multi_file_args(
    inputs: Seq<Seq<char>>,
    output: Seq<char>,
    duration: nat,
    audio: Option<Seq<char>>,
    dims: VideoDimensions,
) -> Seq<Seq<char>> {
    let n = inputs.len();
    let (w, h) = canvas_spec(dims);
    input_args(inputs) + match audio {
        Some(a) => seq!["-i"@, a],
        None => seq![],
    } + seq!["-filter_complex"@, filter_graph(n, w as nat, h as nat), "-map"@, "[outv]"@]
        + match audio {
        Some(a) => seq!["-map"@, decimal(n) + ":a"@],
        None => seq![],
    } + cap_args(duration) + seq![
        "-c:v"@,
        "libx264"@,
        "-preset"@,
        "veryfast"@,
        "-crf"@,
        "26"@,
    ] + match audio {
        Some(a) => seq!["-c:a"@, "aac"@, "-b:a"@, "128k"@],
        None => seq![],
    } + seq!["-threads"@, "0"@, "-shortest"@, "-y"@, output]
}

/// The audio file to lay under a job: only one that exists and is not empty.
pub fn usable_audio(path: &str, exists: bool, len: u64) -> (r: Option<String>)
    ensures
        exists && len > 0 ==> r.is_some() && r.unwrap()@ == path@,
        !(exists && len > 0) ==> r.is_none(),
{
    if exists && len > 0 {
        Some(String::from_str(path))
    } else {
        None
    }
}

fn push(v: &mut Vec<String>, s: &str)
    ensures
        final(v).deep_view() == old(v).deep_view().push(s@),
{
    let ghost before = v.deep_view();
    v.push(String::from_str(s));
    assert(v.deep_view() =~= before.push(s@));
}

fn push_cap(v: &mut Vec<String>, duration: u32)
    ensures
        final(v).deep_view() == old(v).deep_view() + cap_args(duration as nat),
{
    let ghost before = v.deep_view();
    if duration > 0 {
        push(v, "-t");
        let d = decimal_string(duration as u64);
        push(v, d.as_str());
        assert(v.deep_view() =~= before + cap_args(duration as nat));
    } else {
        assert(v.deep_view() =~= before + cap_args(duration as nat));
    }
}

/// Transcoder arguments for a job of one input file.
pub fn single_file_command(input: &str, output: &str, duration: u32, audio: &Option<String>) -> (r:
    Vec<String>)
    ensures
        r.deep_view() == single_file_args(
            input@,
            output@,
            duration as nat,
            match audio {
                Some(a) => Some(a@),
                None => None,
            },
        ),
{
    let mut v: Vec<String> = Vec::new();
    push(&mut v, "-i");
    push(&mut v, input);
    let ghost head = v.deep_view();
    match audio {
        Some(a) => {
            push(&mut v, "-i");
            push(&mut v, a.as_str());
            push(&mut v, "-c:v");
            push(&mut v, "copy");
            push(&mut v, "-c:a");
            push(&mut v, "aac");
            push(&mut v, "-b:a");
            push(&mut v, "128k");
            push(&mut v, "-shortest");
        },
        None => {
            push(&mut v, "-c");
            push(&mut v, "copy");
        },
    }
    let ghost mid = v.deep_view();
    push_cap(&mut v, duration);
    push(&mut v, "-y");
    push(&mut v, output);
    assert(v.deep_view() =~= single_file_args(
        input@,
        output@,
        duration as nat,
        match audio {
            Some(a) => Some(a@),
            None => None,
        },
    ));
    v
}

fn graph_for(n: usize, w: u32, h: u32) -> (r: String)
    ensures
        r@ == filter_graph(n as nat, w as nat, h as nat),
{
    let ws = decimal_string(w as u64);
    let hs = decimal_string(h as u64);
    let mut g = String::new();
    let mut i: usize = 0;
    while i < n
        invariant
            i <= n,
            ws@ == decimal(w as nat),
            hs@ == decimal(h as nat),
            g@ == scale_filters(i as nat, w as nat, h as nat),
        decreases n - i,
    {
        let ghost before = g@;
        let is = decimal_string(i as u64);
        g.append("[");
        g.append(is.as_str());
        g.append(":v]setpts=PTS-STARTPTS,scale=");
        g.append(ws.as_str());
        g.append(":");
        g.append(hs.as_str());
        g.append(":force_original_aspect_ratio=decrease,pad=");
        g.append(ws.as_str());
        g.append(":");
        g.append(hs.as_str());
        g.append(":(ow-iw)/2:(oh-ih)/2[v");
        g.append(is.as_str());
        g.append("];");
        assert(scale_filters((i + 1) as nat, w as nat, h as nat) == scale_filters(
            i as nat,
            w as nat,
            h as nat,
        ) + scale_filter(i as nat, w as nat, h as nat));
        assert(g@ =~= before + scale_filter(i as nat, w as nat, h as nat));
        i += 1;
    }
    let ghost scaled = g@;
    let mut labels = String::new();
    let mut k: usize = 0;
    while k < n
        invariant
            k <= n,
            labels@ == concat_labels(k as nat),
        decreases n - k,
    {
        let ghost before = labels@;
        let ks = decimal_string(k as u64);
        labels.append("[v");
        labels.append(ks.as_str());
        labels.append("]");
        assert(concat_labels((k + 1) as nat) == concat_labels(k as nat) + "[v"@ + decimal(k as nat)
            + "]"@);
        assert(labels@ =~= before + "[v"@ + decimal(k as nat) + "]"@);
        k += 1;
    }
    g.append(labels.as_str());
    g.append("concat=n=");
    let ns = decimal_string(n as u64);
    g.append(ns.as_str());
    g.append(":v=1:a=0[outv]");
    assert(g@ =~= filter_graph(n as nat, w as nat, h as nat));
    g
}

/// Transcoder arguments for a job that merges several input files onto the
/// canvas chosen from `dims`, the size of the first of them.
pub fn multi_file_command(
    inputs: &Vec<String>,
    output: &str,
    duration: u32,
    audio: &Option<String>,
    dims: &VideoDimensions,
) -> (r: Vec<String>)
    ensures
        r.deep_view() == multi_file_args(
            inputs.deep_view(),
            output@,
            duration as nat,
            match audio {
                Some(a) => Some(a@),
                None => None,
            },
            *dims,
        ),
{
    let ghost au = match audio {
        Some(a) => Some(a@),
        None => None::<Seq<char>>,
    };
    let mut v: Vec<String> = Vec::new();
    let mut i: usize = 0;
    while i < inputs.len()
        invariant
            i <= inputs.len(),
            v.deep_view() == input_args(inputs.deep_view().subrange(0, i as int)),
        decreases inputs.len() - i,
    {
        let ghost before = v.deep_view();
        push(&mut v, "-i");
        push(&mut v, inputs[i].as_str());
        let ghost pre = inputs.deep_view().subrange(0, i + 1);
        assert(pre.drop_last() =~= inputs.deep_view().subrange(0, i as int));
        assert(v.deep_view() =~= before + seq!["-i"@, pre.last()]);
        i += 1;
    }
    assert(inputs.deep_view().subrange(0, i as int) =~= inputs.deep_view());
    let ghost s0 = v.deep_view();
    if let Some(a) = audio {
        push(&mut v, "-i");
        push(&mut v, a.as_str());
    }
    let ghost s1 = v.deep_view();
    assert(s1 =~= s0 + match au {
        Some(a) => seq!["-i"@, a],
        None => seq![],
    });
    let (w, h) = canvas_for(dims);
    let graph = graph_for(inputs.len(), w, h);
    push(&mut v, "-filter_complex");
    push(&mut v, graph.as_str());
    push(&mut v, "-map");
    push(&mut v, "[outv]");
    let ghost s2 = v.deep_view();
    if audio.is_some() {
        let ns = decimal_string(inputs.len() as u64);
        let m = ns.concat(":a");
        push(&mut v, "-map");
        push(&mut v, m.as_str());
    }
    let ghost s3 = v.deep_view();
    assert(s3 =~= s2 + match au {
        Some(a) => seq!["-map"@, decimal(inputs.len() as nat) + ":a"@],
        None => seq![],
    });
    push_cap(&mut v, duration);
    push(&mut v, "-c:v");
    push(&mut v, "libx264");
    push(&mut v, "-preset");
    push(&mut v, "veryfast");
    push(&mut v, "-crf");
    push(&mut v, "26");
    let ghost s4 = v.deep_view();
    if audio.is_some() {
        push(&mut v, "-c:a");
        push(&mut v, "aac");
        push(&mut v, "-b:a");
        push(&mut v, "128k");
    }
    let ghost s5 = v.deep_view();
    assert(s5 =~= s4 + match au {
        Some(a) => seq!["-c:a"@, "aac"@, "-b:a"@, "128k"@],
        None => seq![],
    });
    push(&mut v, "-threads");
    push(&mut v, "0");
    push(&mut v, "-shortest");
    push(&mut v, "-y");
    push(&mut v, output);
    assert(v.deep_view() =~= multi_file_args(inputs.deep_view(), output@, duration as nat, au, *dims));
    v
}

/// Transcoder arguments for a job: one input is passed through, several are
/// merged, which takes the size of the first (`dims`). `None` where the job has
/// no input, or several inputs and no size.
pub fn merge_command(
    inputs: &Vec<String>,
    output: &str,
    duration: u32,
    audio: &Option<String>,
    dims: &Option<VideoDimensions>,
) -> (r: Option<Vec<String>>)
    ensures
        inputs.len() == 0 ==> r.is_none(),
        inputs.len() == 1 ==> r.is_some() && r.unwrap().deep_view() == single_file_args(
            inputs[0]@,
            output@,
            duration as nat,
            match audio {
                Some(a) => Some(a@),
                None => None,
            },
        ),
        inputs.len() >= 2 ==> match dims {
            Some(d) => r.is_some() && r.unwrap().deep_view() == multi_file_args(
                inputs.deep_view(),
                output@,
                duration as nat,
                match audio {
                    Some(a) => Some(a@),
                    None => None,
                },
                *d,
            ),
            None => r.is_none(),
        },
{
    if inputs.len() == 0 {
        None
    } else if inputs.len() == 1 {
        Some(single_file_command(inputs[0].as_str(), output, duration, audio))
    } else {
        match dims {
            Some(d) => Some(multi_file_command(inputs, output, duration, audio, d)),
            None => None,
        }
    }
}

/// A single-file job copies every stream when no usable audio file is given
/// (missing or empty), and with one it re-encodes only the audio and trims the
/// output to the shorter stream.
pub proof fn lemma_single_file_audio(
    input: Seq<char>,
    output: Seq<char>,
    duration: nat,
    audio_path: Seq<char>,
    exists: bool,
    len: nat,
)
    ensures
        ({
            let args = single_file_args(
                input,
                output,
                duration,
                if exists && len > 0 {
                    Some(audio_path)
                } else {
                    None
                },
            );
            &&& !(exists && len > 0) ==> args.subrange(0, 4) == seq!["-i"@, input, "-c"@, "copy"@]
                && args.len() == 6 + cap_args(duration).len()
            &&& (exists && len > 0) ==> args.subrange(0, 11) == seq![
                "-i"@,
                input,
                "-i"@,
                audio_path,
                "-c:v"@,
                "copy"@,
                "-c:a"@,
                "aac"@,
                "-b:a"@,
                "128k"@,
                "-shortest"@,
            ] && args.len() == 13 + cap_args(duration).len()
        }),
{
    let args = single_file_args(
        input,
        output,
        duration,
        if exists && len > 0 {
            Some(audio_path)
        } else {
            None
        },
    );
    if exists && len > 0 {
        assert(args.subrange(0, 11) =~= seq![
            "-i"@,
            input,
            "-i"@,
            audio_path,
            "-c:v"@,
            "copy"@,
            "-c:a"@,
            "aac"@,
            "-b:a"@,
            "128k"@,
            "-shortest"@,
        ]);
    } else {
        assert(args.subrange(0, 4) =~= seq!["-i"@, input, "-c"@, "copy"@]);
    }
}

} // verus!
