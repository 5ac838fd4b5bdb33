use cliptool::model::{TimeInput, VideoBounds};
use cliptool::plan::{
    downloader_run_mode_label, join_quoted, plan_downloader_download, plan_editor_export,
    DownloaderForm, EditorForm,
};

fn base_form() -> EditorForm {
    EditorForm {
        ffmpeg_available: true,
        editor_running: false,
        selected_video: Some("/v/in.mp4".to_string()),
        start_time: TimeInput::from_seconds(10),
        end_time: TimeInput::from_seconds(70),
        bounds: Some(VideoBounds { start_seconds: 0, end_seconds: 120 }),
        output_format: "mp4".to_string(),
        output_fps: "30".to_string(),
        output_bitrate_kbps: "8000".to_string(),
        output_scale_percent: "100".to_string(),
        use_gpu_encoding: false,
        remove_audio: false,
        output_name: "out.mp4".to_string(),
        width: Some(1920),
        height: Some(1080),
    }
}

#[test]
fn join_quotes_each_argument() {
    let args = vec!["-i".to_string(), "my file.mp4".to_string(), "out.mp4".to_string()];
    assert_eq!(join_quoted(&args), "-i 'my file.mp4' out.mp4");
    assert_eq!(join_quoted(&Vec::new()), "");
}

#[test]
fn export_plan_builds_video_arguments() {
    let form = base_form();
    let plan = plan_editor_export(&form, &Vec::new()).expect("plan");
    assert_eq!(plan.output_path, "/v/out.mp4");
    assert_eq!(
        plan.args,
        vec![
            "-y", "-hide_banner", "-ss", "00:00:10", "-i", "/v/in.mp4", "-t", "60", "-sn", "-dn",
            "-fflags", "+genpts", "-avoid_negative_ts", "make_zero", "-map", "0:v:0?", "-c:v",
            "libx264", "-preset", "veryfast", "-b:v", "8000k", "-pix_fmt", "yuv420p", "-r", "30",
            "-map", "0:a:0?", "-c:a", "aac", "-b:a", "192k", "-movflags", "+faststart",
            "/v/out.mp4",
        ]
        .into_iter()
        .map(String::from)
        .collect::<Vec<_>>(),
    );
    assert!(plan.command_line.starts_with("ffmpeg -y -hide_banner -ss 00:00:10 -i /v/in.mp4"));
}

#[test]
fn export_plan_scales_and_drops_audio() {
    let mut form = base_form();
    form.output_scale_percent = "50".to_string();
    form.remove_audio = true;
    form.use_gpu_encoding = true;
    let plan = plan_editor_export(&form, &Vec::new()).expect("plan");
    assert!(plan.args.contains(&"h264_nvenc".to_string()));
    assert!(plan.args.contains(&"-an".to_string()));
    let vf = plan.args.iter().position(|a| a == "-vf").expect("-vf");
    assert_eq!(plan.args[vf + 1], "scale=960:540");
    assert!(!plan.args.contains(&"0:a:0?".to_string()));
}

#[test]
fn export_plan_gif_uses_fps_filter() {
    let mut form = base_form();
    form.output_format = "gif".to_string();
    form.output_name = "out.gif".to_string();
    form.output_scale_percent = "50".to_string();
    let plan = plan_editor_export(&form, &Vec::new()).expect("plan");
    let vf = plan.args.iter().position(|a| a == "-vf").expect("-vf");
    assert_eq!(plan.args[vf + 1], "scale=960:540,fps=30");
    assert!(plan.args.contains(&"-loop".to_string()));
    assert!(!plan.args.contains(&"-b:v".to_string()), "gif takes no bitrate");
}

#[test]
fn export_plan_audio_only_container() {
    let mut form = base_form();
    form.output_format = "mp3".to_string();
    form.output_name = "out.mp3".to_string();
    let plan = plan_editor_export(&form, &Vec::new()).expect("plan");
    assert!(plan.args.contains(&"libmp3lame".to_string()));
    assert!(plan.args.contains(&"-vn".to_string()));
    assert!(!plan.args.contains(&"-vf".to_string()), "audio-only exports never scale");
}

#[test]
fn export_plan_avoids_occupied_output() {
    let form = base_form();
    let existing = vec!["/v/out.mp4".to_string()];
    let plan = plan_editor_export(&form, &existing).expect("plan");
    assert_eq!(plan.output_path, "/v/out(1).mp4");
}

#[test]
fn export_rejections_match_form_messages() {
    let mut running = base_form();
    running.editor_running = true;
    assert_eq!(
        plan_editor_export(&running, &Vec::new()).unwrap_err(),
        "ffmpeg is already running. Wait for it to finish.",
    );

    let mut missing = base_form();
    missing.ffmpeg_available = false;
    assert_eq!(
        plan_editor_export(&missing, &Vec::new()).unwrap_err(),
        "ffmpeg was not found in PATH. Install ffmpeg to enable editing and export.",
    );

    let mut unselected = base_form();
    unselected.selected_video = None;
    assert_eq!(
        plan_editor_export(&unselected, &Vec::new()).unwrap_err(),
        "No video selected. Choose one in the left pane.",
    );

    let mut early = base_form();
    early.bounds = Some(VideoBounds { start_seconds: 30, end_seconds: 120 });
    assert_eq!(
        plan_editor_export(&early, &Vec::new()).unwrap_err(),
        "Start time must be >= 00:00:30.",
    );

    let mut late = base_form();
    late.end_time = TimeInput::from_seconds(300);
    assert_eq!(
        plan_editor_export(&late, &Vec::new()).unwrap_err(),
        "End time must be <= 00:02:00.",
    );

    let mut reversed = base_form();
    reversed.end_time = TimeInput::from_seconds(10);
    assert_eq!(
        plan_editor_export(&reversed, &Vec::new()).unwrap_err(),
        "End time must be greater than start time.",
    );

    let mut unnamed = base_form();
    unnamed.output_name = "   ".to_string();
    assert_eq!(
        plan_editor_export(&unnamed, &Vec::new()).unwrap_err(),
        "Output file name is required.",
    );

    let mut bad_fps = base_form();
    bad_fps.output_fps = "0".to_string();
    assert_eq!(
        plan_editor_export(&bad_fps, &Vec::new()).unwrap_err(),
        "FPS must be a number greater than 0.",
    );

    let mut bad_rate = base_form();
    bad_rate.output_bitrate_kbps = "12.5".to_string();
    assert_eq!(
        plan_editor_export(&bad_rate, &Vec::new()).unwrap_err(),
        "Bitrate must be a whole number greater than 0.",
    );

    let mut bad_scale = base_form();
    bad_scale.output_scale_percent = "150".to_string();
    assert_eq!(
        plan_editor_export(&bad_scale, &Vec::new()).unwrap_err(),
        "Scale percent must be a whole number between 1 and 100.",
    );
}

fn dl_form() -> DownloaderForm {
    DownloaderForm {
        downloader_available: true,
        downloader_running: false,
        probe_running: false,
        url: " https://example.test/v ".to_string(),
        selector: "137+bestaudio/best".to_string(),
        audio_only: false,
        sponsorblock: false,
        subtitles: false,
    }
}

#[test]
fn download_plan_builds_arguments() {
    let plan = plan_downloader_download(&dl_form(), "/v/title.mp4".to_string()).expect("plan");
    assert_eq!(
        plan.args,
        vec![
            "--newline",
            "--no-overwrites",
            "-f",
            "137+bestaudio/best",
            "-o",
            "/v/title.mp4",
            "https://example.test/v",
        ]
        .into_iter()
        .map(String::from)
        .collect::<Vec<_>>(),
    );
    assert!(plan.command_line.starts_with("yt-dlp --newline"));
}

#[test]
fn download_plan_applies_options() {
    let mut form = dl_form();
    form.audio_only = true;
    form.sponsorblock = true;
    form.subtitles = true;
    let plan = plan_downloader_download(&form, "/v/title.mp3".to_string()).expect("plan");
    let f = plan.args.iter().position(|a| a == "-f").expect("-f");
    assert_eq!(plan.args[f + 1], "bestaudio/best", "audio-only overrides the selector");
    assert!(plan.args.contains(&"--sponsorblock-remove".to_string()));
    assert!(plan.args.contains(&"--write-auto-subs".to_string()));
    assert!(plan.args.contains(&"-x".to_string()));
}

#[test]
fn download_rejections_match_form_messages() {
    let mut running = dl_form();
    running.downloader_running = true;
    assert_eq!(
        plan_downloader_download(&running, String::new()).unwrap_err(),
        "Downloader is already running. Wait for it to finish.",
    );
    let mut probing = dl_form();
    probing.probe_running = true;
    assert_eq!(
        plan_downloader_download(&probing, String::new()).unwrap_err(),
        "Still fetching quality options. Please wait.",
    );
    let mut missing = dl_form();
    missing.downloader_available = false;
    assert_eq!(
        plan_downloader_download(&missing, String::new()).unwrap_err(),
        "Downloader requires yt-dlp in PATH. Install it to enable downloads.",
    );
    let mut blank = dl_form();
    blank.url = "  ".to_string();
    assert_eq!(
        plan_downloader_download(&blank, String::new()).unwrap_err(),
        "Enter a URL before running Downloader.",
    );
}

#[test]
fn run_mode_label_lists_enabled_options() {
    assert_eq!(downloader_run_mode_label("row", false, false, false), "row");
    assert_eq!(downloader_run_mode_label("row", true, false, false), "row; audio-only");
    assert_eq!(
        downloader_run_mode_label("row", true, true, true),
        "row; audio-only, sponsorblock, subtitles",
    );
    assert_eq!(downloader_run_mode_label("row", false, true, true), "row; sponsorblock, subtitles");
    assert_eq!(downloader_run_mode_label("row", false, false, true), "row; subtitles");
}
