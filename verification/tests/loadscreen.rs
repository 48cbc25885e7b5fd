use eli_lib::bake::{
    check_regular_file, reject_animation,
    bake_result, check_destination, check_dimensions, check_source_outside, finish_bake,
    lock_file_name, output_name, png_is_animated, premultiplied_source, staging_name,
    unpremultiply, validate_format, DestinationState, InputFormat,
};
use eli_lib::bake_progress::{BakeProgressBoard, BarAction, MAX_VISIBLE_JOB_BARS};
use eli_lib::bootdisk::Platform;
use eli_lib::error::{EliError, ErrorKind};
use eli_lib::loadscreen::{
    frame_name, frame_specs, play_demo, rounded_progress_mark, validate_slices, worker_count,
    BakeEvent, BakeJobPhase, RuntimeEnvironment, DEFAULT_SLICES, MAX_SLICES,
};

#[test]
fn progress_names_are_unique_up_to_the_supported_limit() {
    for slices in 1..=MAX_SLICES {
        let marks = (0..=slices)
            .map(|index| rounded_progress_mark(index, slices))
            .collect::<Vec<_>>();
        assert!(marks.windows(2).all(|pair| pair[0] < pair[1]));
        assert_eq!(marks[0], 0);
        assert_eq!(*marks.last().unwrap(), 1000);
    }
}

#[test]
fn rejects_invalid_slice_counts() {
    assert_eq!(validate_slices(0).unwrap_err().kind(), ErrorKind::InvalidInput);
    assert_eq!(validate_slices(MAX_SLICES + 1).unwrap_err().kind(), ErrorKind::InvalidInput);
    assert!(validate_slices(1).is_ok());
    assert!(validate_slices(MAX_SLICES).is_ok());
}

#[test]
fn default_slices_have_the_expected_names() {
    let frames = frame_specs(DEFAULT_SLICES);

    assert_eq!(frames.len(), 9);
    assert_eq!(frames[0].file_name, "lsbp_0000.webp");
    assert_eq!(frames[1].file_name, "lsbp_0125.webp");
    assert_eq!(frames[8].file_name, "lsbp_1000.webp");
    assert_eq!(frame_name(7), "lsbp_0007.webp");
}

#[test]
fn explicit_jobs_override_the_automatic_worker_limit() {
    assert_eq!(worker_count(1, 1, 9, Some(6), 2), 6);
    assert_eq!(worker_count(1, 1, 3, Some(6), 2), 3);
}

#[test]
fn explicit_jobs_still_respect_the_memory_budget() {
    assert_eq!(worker_count(3840, 2160, 9, Some(8), 16), 4);
}

#[test]
fn automatic_workers_follow_the_machine_up_to_four() {
    assert_eq!(worker_count(1, 1, 9, None, 16), 4);
    assert_eq!(worker_count(1, 1, 9, None, 2), 2);
    assert_eq!(worker_count(1, 1, 0, None, 2), 1);
}

#[test]
fn rejects_a_directory_as_the_demo_background() {
    let error = play_demo(RuntimeEnvironment::WindowsPE, ".", false).unwrap_err();

    assert_eq!(error.kind(), ErrorKind::InvalidInput);
    assert!(error.to_string().contains("not a file"));
    assert_eq!(error.to_string(), "loadscreen demo background is not a file: .");
    assert_eq!(play_demo(RuntimeEnvironment::Other, "bg.jpg", true).unwrap_err().kind(), ErrorKind::Unsupported);
    assert!(play_demo(RuntimeEnvironment::WindowsNormal, "bg.jpg", true).is_ok());
}

#[test]
fn rejects_gif_before_decoding() {
    let error = validate_format("wallpaper.gif", InputFormat::Gif).unwrap_err();

    assert_eq!(error.kind(), ErrorKind::InvalidInput);
    assert!(error.to_string().contains("GIF"));
    assert!(validate_format("a.png", InputFormat::Png).is_ok());
    assert_eq!(validate_format("a.avif", InputFormat::Other).unwrap_err().kind(), ErrorKind::InvalidInput);
    assert_eq!(check_dimensions("a.png", 0, 4).unwrap_err().kind(), ErrorKind::InvalidData);
    assert!(check_dimensions("a.png", 4, 4).is_ok());
}

fn png_with_chunks(chunks: &[(&[u8; 4], &[u8])]) -> Vec<u8> {
    let mut bytes = vec![137, 80, 78, 71, 13, 10, 26, 10];
    for (tag, data) in chunks {
        bytes.extend_from_slice(&(data.len() as u32).to_be_bytes());
        bytes.extend_from_slice(*tag);
        bytes.extend_from_slice(data);
        bytes.extend_from_slice(&[0, 0, 0, 0]);
    }
    bytes
}

#[test]
fn finds_an_animation_control_chunk_before_the_image_data() {
    let animated = png_with_chunks(&[(b"IHDR", &[0; 13]), (b"acTL", &[0; 8]), (b"IDAT", &[1])]);
    assert!(png_is_animated("a.png", &animated).unwrap());
    let still = png_with_chunks(&[(b"IHDR", &[0; 13]), (b"IDAT", &[1]), (b"acTL", &[0; 8])]);
    assert!(!png_is_animated("a.png", &still).unwrap());
    assert!(!png_is_animated("a.png", &b"not a png at all".to_vec()).unwrap());
    assert_eq!(png_is_animated("a.png", &b"short".to_vec()).unwrap_err().kind(), ErrorKind::UnexpectedEof);
    let mut truncated = png_with_chunks(&[(b"IHDR", &[0; 13])]);
    truncated[11] = 200;
    let error = png_is_animated("a.png", &truncated).unwrap_err();
    assert_eq!(error.kind(), ErrorKind::InvalidData);
    assert_eq!(error.to_string(), "truncated PNG image: a.png");
}

#[test]
fn premultiplies_only_images_with_transparency() {
    assert!(premultiplied_source(&vec![10, 20, 30, 255, 1, 2, 3, 255]).is_none());
    let scaled = premultiplied_source(&vec![255, 128, 0, 128, 9, 9, 9, 255]).unwrap();
    assert_eq!(scaled, vec![128, 64, 0, 128, 9, 9, 9, 255]);

    let mut pixels = vec![128, 64, 0, 128, 7, 7, 7, 0, 200, 200, 200, 100];
    unpremultiply(&mut pixels);
    assert_eq!(pixels, vec![255, 128, 0, 128, 0, 0, 0, 0, 255, 255, 255, 100]);
}

#[test]
fn names_the_staging_and_lock_files_beside_the_output() {
    assert_eq!(output_name("out/frames").unwrap(), "frames");
    assert_eq!(output_name("out/frames/.").unwrap(), "frames");
    assert_eq!(output_name("..").unwrap_err().kind(), ErrorKind::InvalidInput);
    assert_eq!(output_name("/").unwrap_err().kind(), ErrorKind::InvalidInput);
    assert_eq!(lock_file_name("frames"), ".frames.eli-loadscreen-bake.lock");
    assert_eq!(staging_name("frames", 42, 7), ".frames.eli-staging-42-7");
}

#[test]
fn refuses_an_input_inside_the_output_directory() {
    assert_eq!(
        check_source_outside("/work/out/in.png", "/work/out").unwrap_err().kind(),
        ErrorKind::InvalidInput
    );
    assert!(check_source_outside("/work/output.png", "/work/out").is_ok());
}

#[test]
fn refuses_to_modify_a_non_empty_output_directory() {
    let state = |exists, is_symlink, is_dir, is_empty| DestinationState { exists, is_symlink, is_dir, is_empty };
    assert!(!check_destination("out", state(false, false, false, false)).unwrap());
    assert!(check_destination("out", state(true, false, true, true)).unwrap());
    let error = check_destination("out", state(true, false, true, false)).unwrap_err();
    assert_eq!(error.kind(), ErrorKind::AlreadyExists);
    assert_eq!(error.to_string(), "output directory is not empty: out");
    assert_eq!(
        check_destination("out", state(true, true, true, true)).unwrap_err().to_string(),
        "output path is not an empty directory: out"
    );
}

#[test]
fn a_bake_ends_with_its_first_problem() {
    let failure = || EliError::new(ErrorKind::Other, "first".to_owned());
    assert_eq!(
        finish_bake(true, vec![failure()], 0, 9).unwrap_err().to_string(),
        "a loadscreen bake worker panicked"
    );
    assert_eq!(finish_bake(false, vec![failure()], 0, 9).unwrap_err().to_string(), "first");
    assert_eq!(
        finish_bake(false, Vec::new(), 3, 9).unwrap_err().to_string(),
        "loadscreen bake stopped after completing 3 of 9 jobs"
    );
    assert!(finish_bake(false, Vec::new(), 9, 9).is_ok());
}

#[test]
fn a_bake_result_lists_one_file_per_frame() {
    let frames = frame_specs(2);
    let result = bake_result(Platform::Unix, "out", &frames, 640, 480, 2, 1, 5);
    assert_eq!(result.files, vec!["out/lsbp_0000.webp", "out/lsbp_0500.webp", "out/lsbp_1000.webp"]);
    assert_eq!((result.width, result.height, result.workers), (640, 480, 2));
}

#[test]
fn limits_the_number_of_visible_concurrent_job_bars() {
    let mut progress = BakeProgressBoard::new(true);
    progress.handle(BakeEvent::Started {
        total: MAX_VISIBLE_JOB_BARS + 4,
        workers: MAX_VISIBLE_JOB_BARS + 4,
    });
    for progress_mark in 0..(MAX_VISIBLE_JOB_BARS as u16 + 4) {
        progress.handle(BakeEvent::JobStarted {
            progress_mark,
            file_name: format!("lsbp_{progress_mark:04}.webp"),
        });
    }

    assert_eq!(progress.jobs.len(), MAX_VISIBLE_JOB_BARS);
    let actions = progress.handle(BakeEvent::Aborted);
    assert_eq!(actions.len(), MAX_VISIBLE_JOB_BARS + 1);
    assert!(progress.jobs.is_empty());
}

#[test]
fn job_bars_follow_their_jobs() {
    let mut progress = BakeProgressBoard::new(true);
    progress.handle(BakeEvent::Started { total: 2, workers: 1 });
    progress.handle(BakeEvent::JobStarted { progress_mark: 0, file_name: "lsbp_0000.webp".to_owned() });
    let actions = progress.handle(BakeEvent::JobPhase { progress_mark: 0, phase: BakeJobPhase::Blur });
    assert!(matches!(&actions[0], BarAction::SetJobMessage { progress_mark: 0, message } if message == "模糊"));
    let actions = progress.handle(BakeEvent::JobFinished {
        progress_mark: 0,
        file_name: "lsbp_0000.webp".to_owned(),
        completed: 1,
        total: 2,
        elapsed_secs: 10,
        elapsed_nanos: 550_000_000,
    });
    assert!(matches!(&actions[0], BarAction::FinishJob { progress_mark: 0 }));
    assert!(matches!(&actions[1], BarAction::SetOverall { message, position: 1 } if message == "lsbp_0000.webp 完成 · 10.55s"));
    assert!(progress.jobs.is_empty());
    assert_eq!(progress.overall, Some(1));
}

#[test]
fn prints_lines_when_not_on_a_terminal() {
    let mut progress = BakeProgressBoard::new(false);
    let actions = progress.handle(BakeEvent::Started { total: 9, workers: 1 });
    assert!(matches!(&actions[0], BarAction::Print { line } if line == "Baking 9 loadscreen images with 1 job"));
    let actions = progress.handle(BakeEvent::JobFailed {
        progress_mark: 3,
        file_name: "lsbp_0375.webp".to_owned(),
        error: "disk full".to_owned(),
    });
    assert!(matches!(&actions[0], BarAction::Print { line } if line == "lsbp_0375.webp failed: disk full"));
    assert!(progress.handle(BakeEvent::Aborted).is_empty());
}

#[test]
fn refuses_a_source_that_is_not_a_regular_file() {
    assert!(check_regular_file("/tmp/a.png", true).is_ok());
    let error = check_regular_file("/tmp/dir", false).unwrap_err();
    assert_eq!(error.kind(), ErrorKind::InvalidInput);
    assert_eq!(error.to_string(), "input image is not a regular file: /tmp/dir");
}

#[test]
fn refuses_animated_images() {
    assert!(reject_animation("/tmp/a.png", false).is_ok());
    let error = reject_animation("/tmp/a.webp", true).unwrap_err();
    assert_eq!(error.kind(), ErrorKind::InvalidInput);
    assert_eq!(error.to_string(), "animated images are not supported: /tmp/a.webp");
}

#[test]
fn marks_beyond_the_last_frame_keep_sixteen_bits() {
    assert_eq!(rounded_progress_mark(8, 8), 1000);
    assert_eq!(rounded_progress_mark(1, 3), 333);
    assert_eq!(rounded_progress_mark(2, 3), 667);
    assert_eq!(rounded_progress_mark(65535, 1), 64536);
}
