//! The encoder invocation planned for one event directory.

use vstd::prelude::*;
use crate::rate::Rate;
use crate::rate::rate_decimal;
use crate::rate::render_rate;
use crate::rate::spec_estimate;
use crate::rate::spec_rate_or_default;
use crate::rate::estimate_rate;
use crate::rate::rate_or_default;
use crate::text::views_of;

verus! {

/// One planned invocation of the external encoder: the program, its argument
/// list in order, and the output file the invocation is to produce.
pub struct EncoderPlan {
    pub program: String,
    pub args: Vec<String>,
    pub output_path: String,
}

/// The input pattern handed to the encoder: frames of the event directory,
/// named as a decimal index with the capture suffix.
pub open spec fn input_pattern(event_dir: Seq<char>) -> Seq<char> {
    event_dir + "/%d-capture.jpg"@
}

/// The output file for an event: the event's name with the video suffix,
/// inside the output directory.
pub open spec fn output_path_of(videos_dir: Seq<char>, event_name: Seq<char>) -> Seq<char> {
    videos_dir + "/"@ + event_name + "-video.webm"@
}

/// The encoder's argument list, in order: the frame rate, the input pattern,
/// the fixed codec and pixel-format selectors, and the output file.
pub open spec fn encoder_args(
    event_dir: Seq<char>,
    videos_dir: Seq<char>,
    event_name: Seq<char>,
    rate: Rate,
) -> Seq<Seq<char>> {
    seq![
        "-framerate"@,
        rate_decimal(rate.num as nat, rate.den as nat),
        "-i"@,
        input_pattern(event_dir),
        "-c:v"@,
        "libvpx-vp9"@,
        "-pix_fmt"@,
        "yuv420p"@,
        output_path_of(videos_dir, event_name),
    ]
}

/// The plan is the encoder invocation for the given event and rate.
pub open spec fn plan_matches(
    p: EncoderPlan,
    event_dir: Seq<char>,
    videos_dir: Seq<char>,
    event_name: Seq<char>,
    rate: Rate,
) -> bool {
    &&& p.program@ == "ffmpeg"@
    &&& views_of(p.args@) == encoder_args(event_dir, videos_dir, event_name, rate)
    &&& p.output_path@ == output_path_of(videos_dir, event_name)
}

/// Builds the encoder invocation for one event directory and an already
/// chosen rate.
pub fn build_encoder_plan(event_dir: &str, videos_dir: &str, event_name: &str, rate: &Rate) -> (p:
    EncoderPlan)
    requires
        rate.wf(),
    ensures
        plan_matches(p, event_dir@, videos_dir@, event_name@, *rate),
{
    let rate_str = render_rate(rate);
    let mut pattern = String::from_str(event_dir);
    pattern.append("/%d-capture.jpg");
    let mut outp = String::from_str(videos_dir);
    outp.append("/");
    outp.append(event_name);
    outp.append("-video.webm");
    let output_path = outp.clone();
    let mut args: Vec<String> = Vec::new();
    args.push(String::from_str("-framerate"));
    args.push(rate_str);
    args.push(String::from_str("-i"));
    args.push(pattern);
    args.push(String::from_str("-c:v"));
    args.push(String::from_str("libvpx-vp9"));
    args.push(String::from_str("-pix_fmt"));
    args.push(String::from_str("yuv420p"));
    args.push(outp);
    let program = String::from_str("ffmpeg");
    proof {
        assert(views_of(args@) =~= encoder_args(event_dir@, videos_dir@, event_name@, *rate));
    }
    EncoderPlan { program, args, output_path }
}

/// Plans the video for one event directory: estimates the rate from the
/// frames' capture timestamps in play order, falls back to the default rate
/// where estimation yields nothing, and lays out the encoder invocation.
pub fn plan_event_video(
    event_dir: &str,
    videos_dir: &str,
    event_name: &str,
    timestamps: &Vec<Option<u64>>,
) -> (p: EncoderPlan)
    ensures
        plan_matches(
            p,
            event_dir@,
            videos_dir@,
            event_name@,
            spec_rate_or_default(spec_estimate(timestamps@)),
        ),
{
    let est = estimate_rate(timestamps);
    let rate = rate_or_default(est);
    build_encoder_plan(event_dir, videos_dir, event_name, &rate)
}

} // verus!
