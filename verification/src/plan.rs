//! Planning an editor export: validating the form, resolving the output
//! path, and constructing the encoder's argument list and display command
//! line.  Everything here is pure; the caller spawns the planned process.
use vstd::prelude::*;
use crate::media::{
    candidate_of, enforce_extension_spec, enforce_output_extension, is_audio_format_spec,
    is_audio_output_format, next_available_output_path, normalize_format_spec,
    resolve_output_path, resolve_output_path_spec, shell_quote, shell_quote_spec,
    scaled_dim_spec, scaled_dimension_for_percent, start_counter_of,
};
use crate::text::str_eq;
use crate::form::{
    fps_text_valid, parse_output_bitrate_kbps, parse_output_fps, parse_output_scale_percent,
};
use crate::model::{TimeInput, VideoBounds};
use crate::text::{
    dec_digits, dec_value, is_digit_seq, trim_of, trim_spec, u64_to_dec,
};

verus! {

/// The form state an export starts from, as plain values.
pub struct EditorForm {
    /// The encoder was found on the search path at startup.
    pub ffmpeg_available: bool,
    /// An export already occupies the editor slot.
    pub editor_running: bool,
    /// The selected input file.
    pub selected_video: Option<String>,
    pub start_time: TimeInput,
    pub end_time: TimeInput,
    /// The probed time range of the input, when the probe succeeded.
    pub bounds: Option<VideoBounds>,
    /// The chosen output container, canonical.
    pub output_format: String,
    pub output_fps: String,
    pub output_bitrate_kbps: String,
    pub output_scale_percent: String,
    pub use_gpu_encoding: bool,
    pub remove_audio: bool,
    pub output_name: String,
    /// The probed input dimensions, when known.
    pub width: Option<u32>,
    pub height: Option<u32>,
}

impl EditorForm {
    /// The time fields hold two-digit values.
    pub open spec fn wf(&self) -> bool {
        self.start_time.wf() && self.end_time.wf()
    }
}

/// A validated export: the argument list, the display command line, and
/// where the output will land.
#[derive(Debug)]
pub struct ExportPlan {
    pub args: Vec<String>,
    pub command_line: String,
    pub output_path: String,
}

/// The arguments joined for display, each quoted and separated by one
/// space.
pub open spec fn joined_quoted(args: Seq<Seq<char>>) -> Seq<char>
    decreases args.len(),
{
    if args.len() == 0 {
        Seq::empty()
    } else if args.len() == 1 {
        shell_quote_spec(args[0])
    } else {
        joined_quoted(args.drop_last()) + " "@ + shell_quote_spec(args.last())
    }
}

/// Join the quoted arguments with single spaces, as the transcript header
/// shows them.
pub fn join_quoted(args: &Vec<String>) -> (r: String)
    ensures
        r@ == joined_quoted(args.deep_view()),
{
    let ghost av = args.deep_view();
    let mut out = String::new();
    if args.len() == 0 {
        proof {
            assert(out@ =~= joined_quoted(av));
        }
        return out;
    }
    let q = shell_quote(args[0].as_str());
    out.append(q.as_str());
    proof {
        assert(av[0] == args@[0]@);
        assert(av.take(1) =~= seq![av[0]]);
        assert(out@ =~= joined_quoted(av.take(1)));
    }
    let mut i: usize = 1;
    while i < args.len()
        invariant
            1 <= i <= args@.len(),
            av == args.deep_view(),
            av.len() == args@.len(),
            out@ == joined_quoted(av.take(i as int)),
        decreases args@.len() - i,
    {
        proof {
            assert(av[i as int] == args@[i as int]@);
            assert(av.take(i + 1).drop_last() =~= av.take(i as int));
            assert(av.take(i + 1).last() == av[i as int]);
        }
        out.append(" ");
        let q = shell_quote(args[i].as_str());
        out.append(q.as_str());
        i = i + 1;
    }
    proof {
        assert(av.take(av.len() as int) =~= av);
    }
    out
}

/// Whether the chosen container shows the video options (frame rate and
/// scale) on the form.
pub open spec fn video_options_on(fmt: Seq<char>) -> bool {
    !is_audio_format_spec(fmt)
}

/// Whether the chosen container takes a video bitrate.
pub open spec fn bitrate_on(fmt: Seq<char>) -> bool {
    normalize_format_spec(fmt) != "gif"@ && !is_audio_format_spec(fmt)
}

/// The message the export is rejected with, or `None` when every check
/// passes; the checks run in the order the form reports them.
pub open spec fn export_error_spec(f: EditorForm) -> Option<Seq<char>> {
    let start = f.start_time.seconds_value();
    let end = f.end_time.seconds_value();
    if f.editor_running {
        Some("ffmpeg is already running. Wait for it to finish."@)
    } else if !f.ffmpeg_available {
        Some("ffmpeg was not found in PATH. Install ffmpeg to enable editing and export."@)
    } else if f.selected_video is None {
        Some("No video selected. Choose one in the left pane."@)
    } else if !(dec_value(f.start_time.minutes_view()) < 60 && dec_value(
        f.start_time.seconds_view(),
    ) < 60 && dec_value(f.end_time.minutes_view()) < 60 && dec_value(f.end_time.seconds_view())
        < 60) {
        Some("Minutes and seconds must be between 00 and 59."@)
    } else if f.bounds is Some && start < f.bounds->Some_0.start_seconds {
        Some(
            "Start time must be >= "@ + crate::stats::timestamp_of_seconds(
                f.bounds->Some_0.start_seconds as int,
            ) + "."@,
        )
    } else if f.bounds is Some && start >= f.bounds->Some_0.end_seconds {
        Some(
            "Start time must be < "@ + crate::stats::timestamp_of_seconds(
                f.bounds->Some_0.end_seconds as int,
            ) + "."@,
        )
    } else if f.bounds is Some && end > f.bounds->Some_0.end_seconds {
        Some(
            "End time must be <= "@ + crate::stats::timestamp_of_seconds(
                f.bounds->Some_0.end_seconds as int,
            ) + "."@,
        )
    } else if end <= start {
        Some("End time must be greater than start time."@)
    } else if trim_spec(f.output_name@).len() == 0 {
        Some("Output file name is required."@)
    } else if video_options_on(f.output_format@) && !fps_text_valid(trim_spec(f.output_fps@)) {
        Some("FPS must be a number greater than 0."@)
    } else if bitrate_on(f.output_format@) && !(is_digit_seq(trim_spec(f.output_bitrate_kbps@))
        && 0 < dec_value(trim_spec(f.output_bitrate_kbps@)) && dec_value(
        trim_spec(f.output_bitrate_kbps@),
    ) <= u32::MAX) {
        Some("Bitrate must be a whole number greater than 0."@)
    } else if video_options_on(f.output_format@) && !(trim_spec(f.output_scale_percent@).len() == 0
        || (is_digit_seq(trim_spec(f.output_scale_percent@)) && 1 <= dec_value(
        trim_spec(f.output_scale_percent@),
    ) <= 100)) {
        Some("Scale percent must be a whole number between 1 and 100."@)
    } else {
        None
    }
}

/// The scale video filter: exact dimensions when the probe knows them,
/// an even-truncating expression otherwise.
pub open spec fn scale_filter_spec(width: Option<u32>, height: Option<u32>, p: int) -> Seq<char> {
    match (width, height) {
        (Some(w), Some(h)) => "scale="@ + dec_digits(scaled_dim_spec(w as int, p)) + ":"@
            + dec_digits(scaled_dim_spec(h as int, p)),
        _ => "scale=trunc(iw*"@ + dec_digits(p) + "/100/2)*2:trunc(ih*"@ + dec_digits(p)
            + "/100/2)*2"@,
    }
}

/// The audio-codec arguments of an audio-only export.
pub open spec fn audio_tail_spec(fmt: Seq<char>) -> Seq<Seq<char>> {
    let head = seq!["-map"@, "0:a:0?"@, "-vn"@, "-c:a"@];
    if fmt == "mp3"@ {
        head + seq!["libmp3lame"@, "-b:a"@, "192k"@]
    } else if fmt == "m4a"@ {
        head + seq!["aac"@, "-b:a"@, "192k"@]
    } else if fmt == "wav"@ {
        head + seq!["pcm_s16le"@]
    } else if fmt == "flac"@ {
        head + seq!["flac"@]
    } else {
        head + seq!["aac"@, "-b:a"@, "192k"@]
    }
}

/// The video-codec arguments of a video export.
pub open spec fn video_tail_spec(
    use_gpu: bool,
    kbps: int,
    fps: Seq<char>,
    remove_audio: bool,
) -> Seq<Seq<char>> {
    seq!["-map"@, "0:v:0?"@, "-c:v"@]
        + (if use_gpu {
        seq!["h264_nvenc"@, "-preset"@, "p4"@]
    } else {
        seq!["libx264"@, "-preset"@, "veryfast"@]
    }) + seq!["-b:v"@, dec_digits(kbps) + "k"@, "-pix_fmt"@, "yuv420p"@, "-r"@, fps] + (
    if remove_audio {
        seq!["-an"@]
    } else {
        seq!["-map"@, "0:a:0?"@, "-c:a"@, "aac"@, "-b:a"@, "192k"@]
    }) + seq!["-movflags"@, "+faststart"@]
}

/// The full encoder argument list of a planned export.
pub open spec fn export_args_spec(
    start_ts: Seq<char>,
    input: Seq<char>,
    duration: int,
    fmt: Seq<char>,
    fps: Seq<char>,
    kbps: int,
    scale: int,
    use_gpu: bool,
    remove_audio: bool,
    width: Option<u32>,
    height: Option<u32>,
    out: Seq<char>,
) -> Seq<Seq<char>> {
    let base = seq![
        "-y"@,
        "-hide_banner"@,
        "-ss"@,
        start_ts,
        "-i"@,
        input,
        "-t"@,
        dec_digits(duration),
        "-sn"@,
        "-dn"@,
        "-fflags"@,
        "+genpts"@,
        "-avoid_negative_ts"@,
        "make_zero"@,
    ];
    let audio_only = is_audio_format_spec(fmt);
    let scale_active = !audio_only && scale != 100;
    let scale_f = scale_filter_spec(width, height, scale);
    if audio_only {
        base + audio_tail_spec(normalize_format_spec(fmt)) + seq![out]
    } else if normalize_format_spec(fmt) == "gif"@ {
        let fps_f = "fps="@ + fps;
        let joined = if scale_active {
            scale_f + ","@ + fps_f
        } else {
            fps_f
        };
        base + seq!["-map"@, "0:v:0?"@, "-an"@, "-loop"@, "0"@] + seq!["-vf"@, joined] + seq![out]
    } else {
        base + video_tail_spec(use_gpu, kbps, fps, remove_audio) + (if scale_active {
            seq!["-vf"@, scale_f]
        } else {
            Seq::empty()
        }) + seq![out]
    }
}

/// Build the scale filter text.
fn scale_filter(width: Option<u32>, height: Option<u32>, percent: u32) -> (r: String)
    requires
        percent <= 100,
    ensures
        r@ == scale_filter_spec(width, height, percent as int),
{
    match (width, height) {
        (Some(w), Some(h)) => {
            let (sw, sh) = (
                scaled_dimension_for_percent(w, percent),
                scaled_dimension_for_percent(h, percent),
            );
            let mut s = String::from_str("scale=");
            let swd = u64_to_dec(sw as u64);
            s.append(swd.as_str());
            s.append(":");
            let shd = u64_to_dec(sh as u64);
            s.append(shd.as_str());
            s
        },
        _ => {
            let mut s = String::from_str("scale=trunc(iw*");
            let p = u64_to_dec(percent as u64);
            s.append(p.as_str());
            s.append("/100/2)*2:trunc(ih*");
            s.append(p.as_str());
            s.append("/100/2)*2");
            s
        },
    }
}

/// Validate the form and plan the export.
///
/// `existing` lists the paths already on disk where the output would land.
/// A rejected form gives back exactly the status message the form shows;
/// an accepted one gives the argument list, the quoted display command
/// line, and a collision-free output path: the requested path itself when
/// it is free, else the first free numbered variant.
#[verifier::rlimit(100)]
pub fn plan_editor_export(form: &EditorForm, existing: &Vec<String>) -> (r: Result<
    ExportPlan,
    String,
>)
    requires
        form.wf(),
        existing@.len() < 0x1000_0000,
    ensures
        export_error_spec(*form) matches Some(m) ==> (r matches Err(e) && e@ == m),
        export_error_spec(*form) is None ==> (r matches Ok(plan) && {
            let fmt = normalize_format_spec(form.output_format@);
            let requested = resolve_output_path_spec(
                form.selected_video->Some_0@,
                enforce_extension_spec(form.output_name@, form.output_format@),
            );
            let fps = trim_spec(form.output_fps@);
            let kbps = dec_value(trim_spec(form.output_bitrate_kbps@));
            let scale = if !is_audio_format_spec(form.output_format@) {
                if trim_spec(form.output_scale_percent@).len() == 0 {
                    100
                } else {
                    dec_value(trim_spec(form.output_scale_percent@))
                }
            } else {
                100
            };
            &&& !existing.deep_view().contains(plan.output_path@)
            &&& (plan.output_path@ == requested || (existing.deep_view().contains(requested)
                && exists|k: int|
                start_counter_of(requested) <= k && plan.output_path@ == #[trigger] candidate_of(
                    requested,
                    k,
                )))
            &&& plan.args.deep_view() == export_args_spec(
                form.start_time.hours_view() + ":"@ + form.start_time.minutes_view() + ":"@
                    + form.start_time.seconds_view(),
                form.selected_video->Some_0@,
                form.end_time.seconds_value() - form.start_time.seconds_value(),
                form.output_format@,
                fps,
                kbps,
                scale,
                form.use_gpu_encoding,
                form.remove_audio,
                form.width,
                form.height,
                plan.output_path@,
            )
            &&& plan.command_line@ == "ffmpeg "@ + joined_quoted(plan.args.deep_view())
        }),
{
    if form.editor_running {
        return Err(String::from_str("ffmpeg is already running. Wait for it to finish."));
    }
    if !form.ffmpeg_available {
        return Err(
            String::from_str(
                "ffmpeg was not found in PATH. Install ffmpeg to enable editing and export.",
            ),
        );
    }
    let input = match &form.selected_video {
        Some(path) => path.clone(),
        None => {
            return Err(String::from_str("No video selected. Choose one in the left pane."));
        },
    };
    if !(form.start_time.has_valid_minute_second_range()
        && form.end_time.has_valid_minute_second_range()) {
        return Err(String::from_str("Minutes and seconds must be between 00 and 59."));
    }
    let start_seconds = form.start_time.to_seconds();
    let end_seconds = form.end_time.to_seconds();
    if let Some(b) = form.bounds {
        if start_seconds < b.start_seconds {
            let mut msg = String::from_str("Start time must be >= ");
            let ts = TimeInput::from_seconds(b.start_seconds as u64).to_ffmpeg_timestamp();
            msg.append(ts.as_str());
            msg.append(".");
            proof {
                crate::model::lemma_two_digit_value(
                    if b.start_seconds as int / 3600 <= 99 {
                        b.start_seconds as int / 3600
                    } else {
                        99
                    },
                );
                assert(ts@ =~= crate::stats::timestamp_of_seconds(b.start_seconds as int));
            }
            return Err(msg);
        }
        if start_seconds >= b.end_seconds {
            let mut msg = String::from_str("Start time must be < ");
            let ts = TimeInput::from_seconds(b.end_seconds as u64).to_ffmpeg_timestamp();
            msg.append(ts.as_str());
            msg.append(".");
            proof {
                assert(ts@ =~= crate::stats::timestamp_of_seconds(b.end_seconds as int));
            }
            return Err(msg);
        }
        if end_seconds > b.end_seconds {
            let mut msg = String::from_str("End time must be <= ");
            let ts = TimeInput::from_seconds(b.end_seconds as u64).to_ffmpeg_timestamp();
            msg.append(ts.as_str());
            msg.append(".");
            proof {
                assert(ts@ =~= crate::stats::timestamp_of_seconds(b.end_seconds as int));
            }
            return Err(msg);
        }
    }
    if end_seconds <= start_seconds {
        return Err(String::from_str("End time must be greater than start time."));
    }
    let clip_duration = end_seconds - start_seconds;
    let trimmed_name = trim_of(form.output_name.as_str());
    if trimmed_name.unicode_len() == 0 {
        return Err(String::from_str("Output file name is required."));
    }
    let fmt = crate::media::normalize_output_format(form.output_format.as_str());
    let audio_only = is_audio_output_format(form.output_format.as_str());
    let is_gif = str_eq(fmt, "gif");
    let fps: Option<String> = if !audio_only {
        match parse_output_fps(form.output_fps.as_str()) {
            Some(v) => Some(v),
            None => {
                return Err(String::from_str("FPS must be a number greater than 0."));
            },
        }
    } else {
        None
    };
    let kbps: u32 = if !is_gif && !audio_only {
        match parse_output_bitrate_kbps(form.output_bitrate_kbps.as_str()) {
            Some(v) => v,
            None => {
                return Err(
                    String::from_str("Bitrate must be a whole number greater than 0."),
                );
            },
        }
    } else {
        1
    };
    let scale: u32 = if !audio_only {
        match parse_output_scale_percent(form.output_scale_percent.as_str()) {
            Some(v) => v,
            None => {
                return Err(
                    String::from_str(
                        "Scale percent must be a whole number between 1 and 100.",
                    ),
                );
            },
        }
    } else {
        100
    };
    let output_name = enforce_output_extension(form.output_name.as_str(), form.output_format.as_str());
    let requested = resolve_output_path(input.as_str(), output_name.as_str());
    let output_path = next_available_output_path(requested.as_str(), existing);
    let start_ts = form.start_time.to_ffmpeg_timestamp();
    let mut args: Vec<String> = Vec::new();
    args.push(String::from_str("-y"));
    args.push(String::from_str("-hide_banner"));
    args.push(String::from_str("-ss"));
    args.push(start_ts);
    args.push(String::from_str("-i"));
    args.push(input);
    args.push(String::from_str("-t"));
    args.push(u64_to_dec(clip_duration as u64));
    args.push(String::from_str("-sn"));
    args.push(String::from_str("-dn"));
    args.push(String::from_str("-fflags"));
    args.push(String::from_str("+genpts"));
    args.push(String::from_str("-avoid_negative_ts"));
    args.push(String::from_str("make_zero"));
    let scale_active = !audio_only && scale != 100;
    if audio_only {
        args.push(String::from_str("-map"));
        args.push(String::from_str("0:a:0?"));
        args.push(String::from_str("-vn"));
        args.push(String::from_str("-c:a"));
        if str_eq(fmt, "mp3") {
            args.push(String::from_str("libmp3lame"));
            args.push(String::from_str("-b:a"));
            args.push(String::from_str("192k"));
        } else if str_eq(fmt, "m4a") {
            args.push(String::from_str("aac"));
            args.push(String::from_str("-b:a"));
            args.push(String::from_str("192k"));
        } else if str_eq(fmt, "wav") {
            args.push(String::from_str("pcm_s16le"));
        } else if str_eq(fmt, "flac") {
            args.push(String::from_str("flac"));
        } else {
            args.push(String::from_str("aac"));
            args.push(String::from_str("-b:a"));
            args.push(String::from_str("192k"));
        }
    } else if is_gif {
        args.push(String::from_str("-map"));
        args.push(String::from_str("0:v:0?"));
        args.push(String::from_str("-an"));
        args.push(String::from_str("-loop"));
        args.push(String::from_str("0"));
        let fps_text = match fps {
            Some(v) => v,
            None => String::from_str("30"),
        };
        let mut filter = if scale_active {
            let mut s = scale_filter(form.width, form.height, scale);
            s.append(",");
            s
        } else {
            String::new()
        };
        filter.append("fps=");
        filter.append(fps_text.as_str());
        args.push(String::from_str("-vf"));
        args.push(filter);
    } else {
        args.push(String::from_str("-map"));
        args.push(String::from_str("0:v:0?"));
        args.push(String::from_str("-c:v"));
        if form.use_gpu_encoding {
            args.push(String::from_str("h264_nvenc"));
            args.push(String::from_str("-preset"));
            args.push(String::from_str("p4"));
        } else {
            args.push(String::from_str("libx264"));
            args.push(String::from_str("-preset"));
            args.push(String::from_str("veryfast"));
        }
        args.push(String::from_str("-b:v"));
        let mut rate = u64_to_dec(kbps as u64);
        rate.append("k");
        args.push(rate);
        args.push(String::from_str("-pix_fmt"));
        args.push(String::from_str("yuv420p"));
        args.push(String::from_str("-r"));
        let fps_text = match fps {
            Some(v) => v,
            None => String::from_str("30"),
        };
        args.push(fps_text);
        if form.remove_audio {
            args.push(String::from_str("-an"));
        } else {
            args.push(String::from_str("-map"));
            args.push(String::from_str("0:a:0?"));
            args.push(String::from_str("-c:a"));
            args.push(String::from_str("aac"));
            args.push(String::from_str("-b:a"));
            args.push(String::from_str("192k"));
        }
        args.push(String::from_str("-movflags"));
        args.push(String::from_str("+faststart"));
        if scale_active {
            args.push(String::from_str("-vf"));
            args.push(scale_filter(form.width, form.height, scale));
        }
    }
    args.push(output_path.clone());
    proof {
        assert(args.deep_view() =~~= export_args_spec(
            form.start_time.hours_view() + ":"@ + form.start_time.minutes_view() + ":"@
                + form.start_time.seconds_view(),
            form.selected_video->Some_0@,
            form.end_time.seconds_value() - form.start_time.seconds_value(),
            form.output_format@,
            trim_spec(form.output_fps@),
            dec_value(trim_spec(form.output_bitrate_kbps@)),
            if !is_audio_format_spec(form.output_format@) {
                if trim_spec(form.output_scale_percent@).len() == 0 {
                    100int
                } else {
                    dec_value(trim_spec(form.output_scale_percent@))
                }
            } else {
                100int
            },
            form.use_gpu_encoding,
            form.remove_audio,
            form.width,
            form.height,
            output_path@,
        ));
    }
    let mut command_line = String::from_str("ffmpeg ");
    let joined = join_quoted(&args);
    command_line.append(joined.as_str());
    Ok(ExportPlan { args, command_line, output_path })
}

/// The form state a download starts from, as plain values.
pub struct DownloaderForm {
    /// The downloader was found on the search path at startup.
    pub downloader_available: bool,
    /// A download already occupies the downloader slot.
    pub downloader_running: bool,
    /// A capability probe is still outstanding.
    pub probe_running: bool,
    pub url: String,
    /// The selected choice's selector token.
    pub selector: String,
    pub audio_only: bool,
    pub sponsorblock: bool,
    pub subtitles: bool,
}

/// The message a download is rejected with, or `None` when it may start.
pub open spec fn download_error_spec(f: DownloaderForm) -> Option<Seq<char>> {
    if f.downloader_running {
        Some("Downloader is already running. Wait for it to finish."@)
    } else if f.probe_running {
        Some("Still fetching quality options. Please wait."@)
    } else if !f.downloader_available {
        Some("Downloader requires yt-dlp in PATH. Install it to enable downloads."@)
    } else if trim_spec(f.url@).len() == 0 {
        Some("Enter a URL before running Downloader."@)
    } else {
        None
    }
}

/// The selector actually passed to the tool: best audio when the
/// audio-only option is on, else the selected choice's token.
pub open spec fn effective_selector_spec(audio_only: bool, selector: Seq<char>) -> Seq<char> {
    if audio_only {
        "bestaudio/best"@
    } else {
        selector
    }
}

/// The downloader's full argument list.
pub open spec fn download_args_spec(
    selector: Seq<char>,
    output_path: Seq<char>,
    audio_only: bool,
    sponsorblock: bool,
    subtitles: bool,
    url: Seq<char>,
) -> Seq<Seq<char>> {
    seq!["--newline"@, "--no-overwrites"@, "-f"@, selector, "-o"@, output_path] + (if audio_only {
        seq!["-x"@, "--audio-format"@, "mp3"@]
    } else {
        Seq::empty()
    }) + (if sponsorblock {
        seq!["--sponsorblock-remove"@, "default"@]
    } else {
        Seq::empty()
    }) + (if subtitles {
        seq!["--write-subs"@, "--write-auto-subs"@, "--sub-langs"@, "all,-live_chat"@]
    } else {
        Seq::empty()
    }) + seq![url]
}

/// Validate the downloader form and plan the download.
///
/// `output_path` is the collision-free destination the caller resolved
/// with the tool's filename prediction.
pub fn plan_downloader_download(form: &DownloaderForm, output_path: String) -> (r: Result<
    ExportPlan,
    String,
>)
    ensures
        download_error_spec(*form) matches Some(m) ==> (r matches Err(e) && e@ == m),
        download_error_spec(*form) is None ==> (r matches Ok(plan) && {
            &&& plan.output_path@ == output_path@
            &&& plan.args.deep_view() == download_args_spec(
                effective_selector_spec(form.audio_only, form.selector@),
                output_path@,
                form.audio_only,
                form.sponsorblock,
                form.subtitles,
                trim_spec(form.url@),
            )
            &&& plan.command_line@ == "yt-dlp "@ + joined_quoted(plan.args.deep_view())
        }),
{
    if form.downloader_running {
        return Err(String::from_str("Downloader is already running. Wait for it to finish."));
    }
    if form.probe_running {
        return Err(String::from_str("Still fetching quality options. Please wait."));
    }
    if !form.downloader_available {
        return Err(
            String::from_str("Downloader requires yt-dlp in PATH. Install it to enable downloads."),
        );
    }
    let url = trim_of(form.url.as_str());
    if url.unicode_len() == 0 {
        return Err(String::from_str("Enter a URL before running Downloader."));
    }
    let selector = if form.audio_only {
        String::from_str("bestaudio/best")
    } else {
        form.selector.clone()
    };
    let mut args: Vec<String> = Vec::new();
    args.push(String::from_str("--newline"));
    args.push(String::from_str("--no-overwrites"));
    args.push(String::from_str("-f"));
    args.push(selector);
    args.push(String::from_str("-o"));
    args.push(output_path.clone());
    if form.audio_only {
        args.push(String::from_str("-x"));
        args.push(String::from_str("--audio-format"));
        args.push(String::from_str("mp3"));
    }
    if form.sponsorblock {
        args.push(String::from_str("--sponsorblock-remove"));
        args.push(String::from_str("default"));
    }
    if form.subtitles {
        args.push(String::from_str("--write-subs"));
        args.push(String::from_str("--write-auto-subs"));
        args.push(String::from_str("--sub-langs"));
        args.push(String::from_str("all,-live_chat"));
    }
    args.push(String::from_str(url));
    proof {
        assert(args.deep_view() =~~= download_args_spec(
            effective_selector_spec(form.audio_only, form.selector@),
            output_path@,
            form.audio_only,
            form.sponsorblock,
            form.subtitles,
            trim_spec(form.url@),
        ));
    }
    let mut command_line = String::from_str("yt-dlp ");
    let joined = join_quoted(&args);
    command_line.append(joined.as_str());
    Ok(ExportPlan { args, command_line, output_path })
}

/// The run-mode label shown when a download starts: the quality label, and
/// the enabled options after a semicolon.
pub open spec fn run_mode_label_spec(
    label: Seq<char>,
    audio_only: bool,
    sponsorblock: bool,
    subtitles: bool,
) -> Seq<char> {
    if !audio_only && !sponsorblock && !subtitles {
        label
    } else {
        let first = if audio_only {
            "audio-only"@
        } else if sponsorblock {
            "sponsorblock"@
        } else {
            "subtitles"@
        };
        let with_second = if audio_only && sponsorblock {
            first + ", sponsorblock"@
        } else {
            first
        };
        let flags = if (audio_only || sponsorblock) && subtitles {
            with_second + ", subtitles"@
        } else {
            with_second
        };
        label + "; "@ + flags
    }
}

/// Describe the started download for the status line.
pub fn downloader_run_mode_label(
    quality_label: &str,
    audio_only: bool,
    sponsorblock: bool,
    subtitles: bool,
) -> (r: String)
    ensures
        r@ == run_mode_label_spec(quality_label@, audio_only, sponsorblock, subtitles),
{
    if !audio_only && !sponsorblock && !subtitles {
        return String::from_str(quality_label);
    }
    let mut flags = if audio_only {
        String::from_str("audio-only")
    } else if sponsorblock {
        String::from_str("sponsorblock")
    } else {
        String::from_str("subtitles")
    };
    if audio_only && sponsorblock {
        flags.append(", sponsorblock");
    }
    if (audio_only || sponsorblock) && subtitles {
        flags.append(", subtitles");
    }
    let mut out = String::from_str(quality_label);
    out.append("; ");
    out.append(flags.as_str());
    out
}

} // verus!
