use vstd::prelude::*;

verus! {

/// Width and height of a source video.
#[derive(Debug, Clone, Copy, PartialEq, Eq, Structural)]
pub struct VideoDimensions {
    pub width: i64,
    pub height: i64,
}

/// What the metadata tool reports of one stream: its kind and, where given,
/// its size.
pub struct StreamFields {
    pub codec_type: Option<String>,
    pub width: Option<i64>,
    pub height: Option<i64>,
}

/// Why the size of a source video could not be found.
#[derive(Debug, Clone, Copy, PartialEq, Eq, Structural)]
pub enum ProbeError {
    /// The metadata tool's report could not be read.
    Unreadable,
    /// The first video stream has no width.
    MissingWidth,
    /// The first video stream has no height.
    MissingHeight,
    /// No stream is a video stream.
    NoVideoStream,
}

pub open spec fn is_video(s: StreamFields) -> bool {
    s.codec_type.is_some() && s.codec_type.unwrap()@ == "video"@
}

/// The size that the first video stream among `streams` reports.
pub open spec fn dimensions_spec(streams: Seq<StreamFields>) -> Result<VideoDimensions, ProbeError>
    decreases streams.len(),
{
    if streams.len() == 0 {
        Err(ProbeError::NoVideoStream)
    } else if is_video(streams[0]) {
        match (streams[0].width, streams[0].height) {
            (Some(w), Some(h)) => Ok(VideoDimensions { width: w, height: h }),
            (None, _) => Err(ProbeError::MissingWidth),
            (Some(_), None) => Err(ProbeError::MissingHeight),
        }
    } else {
        dimensions_spec(streams.drop_first())
    }
}

/// Output canvas for a merge: 1920x1080 for landscape sources, else 1080x1920.
pub open spec fn canvas_spec(d: VideoDimensions) -> (u32, u32) {
    if d.width > d.height {
        (1920, 1080)
    } else {
        (1080, 1920)
    }
}

proof fn lemma_dimensions_skip(streams: Seq<StreamFields>, i: int)
    requires
        0 <= i < streams.len(),
        !is_video(streams[i]),
    ensures
        dimensions_spec(streams.subrange(i, streams.len() as int)) == dimensions_spec(
            streams.subrange(i + 1, streams.len() as int),
        ),
{
    assert(streams.subrange(i, streams.len() as int).drop_first() =~= streams.subrange(
        i + 1,
        streams.len() as int,
    ));
}

fn is_video_stream(s: &StreamFields) -> (r: bool)
    ensures
        r == is_video(*s),
{
    match &s.codec_type {
        Some(t) => {
            let video = String::from_str("video");
            proof {
                reveal_strlit("video");
            }
            t.eq(&video)
        },
        None => false,
    }
}

/// Finds the size of the first video stream in a metadata report.
pub fn dimensions_from_streams(streams: &Vec<StreamFields>) -> (r: Result<VideoDimensions, ProbeError>)
    ensures
        r == dimensions_spec(streams@),
{
    let mut i: usize = 0;
    assert(streams@.subrange(0, streams@.len() as int) =~= streams@);
    while i < streams.len()
        invariant
            i <= streams.len(),
            dimensions_spec(streams@) == dimensions_spec(
                streams@.subrange(i as int, streams@.len() as int),
            ),
        decreases streams.len() - i,
    {
        let s = &streams[i];
        if is_video_stream(s) {
            assert(streams@.subrange(i as int, streams@.len() as int)[0] == streams@[i as int]);
            return match (s.width, s.height) {
                (Some(w), Some(h)) => Ok(VideoDimensions { width: w, height: h }),
                (None, _) => Err(ProbeError::MissingWidth),
                (Some(_), None) => Err(ProbeError::MissingHeight),
            };
        }
        proof {
            lemma_dimensions_skip(streams@, i as int);
        }
        i += 1;
    }
    assert(streams@.subrange(i as int, streams@.len() as int).len() == 0);
    Err(ProbeError::NoVideoStream)
}

/// The canvas that a merge of sources of the given size is scaled and padded to.
pub fn canvas_for(d: &VideoDimensions) -> (r: (u32, u32))
    ensures
        r == canvas_spec(*d),
{
    if d.width > d.height {
        (1920, 1080)
    } else {
        (1080, 1920)
    }
}

/// The kind, width and height of a stream, as plain values.
pub open spec fn fields_view(s: StreamFields) -> (Option<Seq<char>>, Option<i64>, Option<i64>) {
    (
        match s.codec_type {
            Some(t) => Some(t@),
            None => None,
        },
        s.width,
        s.height,
    )
}

/// The streams that a JSON metadata report lists: each one's `codec_type`
/// string and integer `width` and `height`; none where the text is not JSON.
pub uninterp spec fn json_streams(report: Seq<char>) -> Option<
    Seq<(Option<Seq<char>>, Option<i64>, Option<i64>)>,
>;

/// Relies on `serde_json::from_str` to parse the report and on `Value::get`,
/// `as_array`, `as_str` and `as_i64` to read each entry of its `streams` array
/// (a missing array reads as empty).
#[verifier::external_body]
fn read_streams(report: &str) -> (r: Option<Vec<StreamFields>>)
    ensures
        r.is_some() == json_streams(report@).is_some(),
        r.is_some() ==> r.unwrap()@.map_values(|s: StreamFields| fields_view(s)) == json_streams(
            report@,
        ).unwrap(),
{
    let v: serde_json::Value = serde_json::from_str(report).ok()?;
    let streams = v.get("streams").and_then(|s| s.as_array()).cloned().unwrap_or_default();
    Some(streams.iter().map(|s| StreamFields {
        codec_type: s.get("codec_type").and_then(|c| c.as_str()).map(|c| c.to_string()),
        width: s.get("width").and_then(|w| w.as_i64()),
        height: s.get("height").and_then(|h| h.as_i64()),
    }).collect())
}

/// The size of the first video stream in the metadata tool's JSON report.
pub fn probe_dimensions(report: &str) -> (r: Result<VideoDimensions, ProbeError>)
    ensures
        match json_streams(report@) {
            None => r == Err::<VideoDimensions, ProbeError>(ProbeError::Unreadable),
            Some(v) => exists|s: Seq<StreamFields>|
                s.map_values(|x: StreamFields| fields_view(x)) == v && r == dimensions_spec(s),
        },
{
    match read_streams(report) {
        None => Err(ProbeError::Unreadable),
        Some(streams) => dimensions_from_streams(&streams),
    }
}

} // verus!
