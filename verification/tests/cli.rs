use eli_lib::cli::{
    completed_job_message, duration_string, file_label, format_release, input_prompt,
    job_label, loading_prompt, normalize_load_paths, parse_version_identifier,
    require_alpha_token,
};
use eli_lib::error::ErrorKind;

#[test]
fn parses_and_normalizes_boot_disk_versions() {
    let version = parse_version_identifier("Edgeless_Alpa_4.1.2\r\n").unwrap();

    assert_eq!(version.to_string(), "Edgeless_Alpha_4.1.2");
    assert_eq!(format_release(version), "Alpha");
}

#[test]
fn formats_an_official_release() {
    let version = parse_version_identifier("Edgeless_Beta_Ofial_4.1.0_2").unwrap();

    assert_eq!(version.version.to_string(), "4.1.0");
    assert_eq!(format_release(version), "Beta(Official)");
}

#[test]
fn rejects_invalid_boot_disk_versions() {
    let error = parse_version_identifier("unstructured-version").unwrap_err();

    assert_eq!(error.kind(), ErrorKind::InvalidData);
    assert!(error.to_string().contains("unstructured-version"));
}

#[test]
fn requires_a_token_for_alpha_online_operations() {
    let missing = require_alpha_token(None).unwrap_err();
    let short = require_alpha_token(Some("abc")).unwrap_err();
    let long = require_alpha_token(Some("abcdefghijk")).unwrap_err();
    let six_emojis = require_alpha_token(Some("😀😀😀😀😀😀")).unwrap_err();

    assert_eq!(missing.kind(), ErrorKind::InvalidInput);
    assert_eq!(short.kind(), ErrorKind::InvalidInput);
    assert_eq!(long.kind(), ErrorKind::InvalidInput);
    assert_eq!(six_emojis.kind(), ErrorKind::InvalidInput);
    assert!(missing.to_string().contains("--token"));
}

#[test]
fn accepts_a_token_within_the_length_limits() {
    assert_eq!(require_alpha_token(Some("abcdef")).unwrap(), "abcdef");
}

#[test]
fn formats_the_latest_completed_job_for_the_overall_progress_line() {
    assert_eq!(
        completed_job_message("lsbp_0560.webp", 10, 550_000_000),
        "lsbp_0560.webp 完成 · 10.55s"
    );
}

#[test]
fn durations_match_the_debug_form_with_two_decimals() {
    for (secs, nanos) in [
        (10u64, 550_000_000u32),
        (0, 1_234_567),
        (0, 999),
        (0, 1_500),
        (3, 999_999_999),
        (0, 9_995_000),
        (0, 0),
    ] {
        let expected = format!("{:.2?}", std::time::Duration::new(secs, nanos));
        assert_eq!(duration_string(secs, nanos), expected);
    }
}

#[test]
fn normalize_load_paths_removes_command_line_wrapper_quotes() {
    let paths = normalize_load_paths(vec![
        "\"C:\\Edgeless\\Resource\"".to_owned(),
        "C:\\Edgeless\\Resource\"".to_owned(),
    ]);

    assert_eq!(
        paths,
        vec![
            "C:\\Edgeless\\Resource".to_owned(),
            "C:\\Edgeless\\Resource".to_owned(),
        ]
    );
}

#[test]
fn load_gui_input_prompt_asks_for_plugin_confirmation() {
    assert_eq!(input_prompt(), "是否确认加载如下插件？");
}

#[test]
fn load_gui_loading_prompt_uses_the_list_count() {
    assert_eq!(loading_prompt(3), "正在加载 3 个插件包...");
}

#[test]
fn load_input_prompt_asks_for_plugin_confirmation() {
    assert_eq!(input_prompt(), "是否确认加载如下插件？");
}

#[test]
fn load_loading_prompt_uses_the_list_count() {
    assert_eq!(loading_prompt(3), "正在加载 3 个插件包...");
}

#[test]
fn labels_a_row_by_its_file_name() {
    assert_eq!(file_label("C:\\Plugins\\tool.7z"), "tool.7z");
    assert_eq!(file_label("dir/tool.7z"), "tool.7z");
    assert_eq!(file_label("dir/"), "dir/");
}

#[test]
fn counts_jobs_in_the_singular_only_for_one() {
    assert_eq!(job_label(1), "job");
    assert_eq!(job_label(0), "jobs");
    assert_eq!(job_label(4), "jobs");
}
