use storeshot_backend::codec::{base64_round_trip, decode_file_base64, encode_file_base64};
use storeshot_backend::command::{path_failure_message, spawn_failure_message, CommandOutput};
use storeshot_backend::dialog::{default_save_file_name, resolve_dialog_directory, PathKind};
use storeshot_backend::fonts::{
    collect_system_fonts, fallback_font_list, list_system_fonts, normalize_font_list,
    parse_linux_fonts, parse_mac_fonts, parse_windows_fonts, Platform,
};
use storeshot_backend::paths::{
    is_absolute_path, join_path, normalize_separators, parent_path, project_root, rel_display,
    resolve_project_path,
};
use storeshot_backend::pipeline::{pipeline_script_path, run_pipeline};
use storeshot_backend::png::{has_png_extension, list_png_files};
use storeshot_backend::text::{split_char, split_lines, str_lt, strip_prefix, trim};

fn strings(items: &[&str]) -> Vec<String> {
    items.iter().map(|s| s.to_string()).collect()
}

fn ok_output(stdout: &str) -> Result<CommandOutput, String> {
    Ok(CommandOutput {
        success: true,
        stdout: stdout.to_string(),
        stderr: String::new(),
    })
}

fn failed_output(stderr: &str) -> Result<CommandOutput, String> {
    Ok(CommandOutput {
        success: false,
        stdout: String::new(),
        stderr: stderr.to_string(),
    })
}

const FALLBACK: [&str; 9] = [
    "Apple SD Gothic Neo",
    "Arial",
    "Helvetica Neue",
    "Inter",
    "Noto Sans",
    "Roboto",
    "SF Pro",
    "SF Pro Display",
    "SF Pro Text",
];

#[test]
fn fallback_list_is_the_nine_names_sorted() {
    let fonts = fallback_font_list();
    assert_eq!(fonts, strings(&FALLBACK));
    for pair in fonts.windows(2) {
        assert!(str_lt(&pair[0], &pair[1]));
    }
}

#[test]
fn normalize_dedups_trims_and_drops_empties() {
    let out = normalize_font_list(strings(&["Arial", " Arial", "", "Arial "]));
    assert_eq!(out, strings(&["Arial"]));
}

#[test]
fn normalize_sorts_and_dedups_many() {
    let out = normalize_font_list(strings(&["Zed", "  Arial ", "Beta", "Zed", "\t"]));
    assert_eq!(out, strings(&["Arial", "Beta", "Zed"]));
}

#[test]
fn normalize_of_nothing_usable_is_the_fallback() {
    assert_eq!(normalize_font_list(strings(&[])), strings(&FALLBACK));
    assert_eq!(normalize_font_list(strings(&["", "  ", "\t "])), strings(&FALLBACK));
}

#[test]
fn mac_output_yields_full_names_and_families() {
    let raw = "Fonts:\n\n    Arial.ttf:\n\n      Full Name: Arial Bold\n      Family: Arial\n      Enabled: Yes\n";
    assert_eq!(parse_mac_fonts(raw), strings(&["Arial Bold", "Arial"]));
}

#[test]
fn linux_output_splits_families_after_last_colon() {
    let raw = "/usr/share/fonts/dejavu.ttf: DejaVu Sans,DejaVu Sans Book\n/usr/share/fonts/noto.ttf: Noto Sans\n";
    assert_eq!(
        parse_linux_fonts(raw),
        strings(&["DejaVu Sans", "DejaVu Sans Book", "Noto Sans"])
    );
}

#[test]
fn windows_output_drops_bom_and_parenthetical() {
    let raw = "\u{feff}Arial (TrueType)\r\nSegoe UI (TrueType)\r\n\r\n";
    assert_eq!(parse_windows_fonts(raw), strings(&["Arial", "Segoe UI"]));
}

#[test]
fn list_system_fonts_is_sorted_dedup_nonempty() {
    let raw = "f.ttf: Zeta\nf.ttf: Alpha,Zeta\ng.ttf:  Alpha \n";
    let fonts = list_system_fonts(Platform::Linux, ok_output(raw));
    assert_eq!(fonts, strings(&["Alpha", "Zeta"]));
    assert!(!fonts.is_empty());
    for pair in fonts.windows(2) {
        assert!(str_lt(&pair[0], &pair[1]));
    }
}

#[test]
fn list_system_fonts_falls_back_on_spawn_failure() {
    let fonts = list_system_fonts(Platform::Linux, Err("No such file or directory".to_string()));
    assert_eq!(fonts, strings(&FALLBACK));
}

#[test]
fn list_system_fonts_falls_back_on_nonzero_exit() {
    let fonts = list_system_fonts(Platform::MacOs, failed_output("boom"));
    assert_eq!(fonts, strings(&FALLBACK));
}

#[test]
fn list_system_fonts_falls_back_on_unusable_output() {
    let fonts = list_system_fonts(Platform::MacOs, ok_output("nothing relevant here\n"));
    assert_eq!(fonts, strings(&FALLBACK));
    let fonts = list_system_fonts(Platform::Other, ok_output("ignored"));
    assert_eq!(fonts, strings(&FALLBACK));
}

#[test]
fn collect_system_fonts_reports_spawn_and_exit_errors() {
    let r = collect_system_fonts(Platform::Linux, Err("denied".to_string()));
    assert_eq!(r, Err("failed to execute fc-list: denied".to_string()));
    let r = collect_system_fonts(Platform::Windows, failed_output("registry error"));
    assert_eq!(r, Err("registry error".to_string()));
    let r = collect_system_fonts(Platform::Other, Err("ignored".to_string()));
    assert_eq!(r, Ok(strings(&FALLBACK)));
}

#[test]
fn png_listing_matches_extension_case_insensitively() {
    let files = strings(&["/proj/a.PNG", "/proj/b.txt", "/proj/sub/c.png"]);
    let out = list_png_files("/proj", true, &files);
    assert_eq!(out, strings(&["a.PNG", "sub/c.png"]));
}

#[test]
fn png_listing_of_missing_directory_is_empty() {
    let files = strings(&["/proj/a.png"]);
    let out = list_png_files("/proj", false, &files);
    assert!(out.is_empty());
}

#[test]
fn png_listing_sorts_and_normalizes_separators() {
    let files = strings(&["/proj\\z.png", "/proj/a/b.png", "/other/c.png"]);
    let out = list_png_files("/proj", true, &files);
    assert_eq!(out, strings(&["/other/c.png", "a/b.png", "z.png"]));
}

#[test]
fn png_extension_rules() {
    assert!(has_png_extension("shot.png"));
    assert!(has_png_extension("dir/shot.PnG"));
    assert!(!has_png_extension("shot.jpg"));
    assert!(!has_png_extension(".png"));
    assert!(!has_png_extension("dir/.png"));
    assert!(!has_png_extension("archive.png.txt"));
    assert!(!has_png_extension("png"));
}

#[test]
fn base64_known_values() {
    assert_eq!(encode_file_base64(&vec![77, 97, 110]), "TWFu");
    assert_eq!(encode_file_base64(&vec![77, 97]), "TWE=");
    assert_eq!(encode_file_base64(&Vec::new()), "");
    assert_eq!(decode_file_base64("TWFu"), Ok(vec![77, 97, 110]));
    assert_eq!(decode_file_base64("TWE="), Ok(vec![77, 97]));
}

#[test]
fn base64_rejects_garbage_with_uniform_message() {
    let r = decode_file_base64("!!!");
    assert!(r.is_err());
    assert!(r.unwrap_err().starts_with("failed to decode base64: "));
    assert!(decode_file_base64("TWFu=").is_err());
}

#[test]
fn base64_round_trip_is_identity() {
    let bytes: Vec<u8> = (0u16..=255).map(|b| b as u8).collect();
    assert_eq!(base64_round_trip(&bytes), bytes);
    assert_eq!(base64_round_trip(&Vec::new()), Vec::<u8>::new());
    let payload = encode_file_base64(&bytes);
    assert_eq!(decode_file_base64(&payload), Ok(bytes));
}

#[test]
fn pipeline_returns_stdout_on_success() {
    let r = run_pipeline(Ok(CommandOutput {
        success: true,
        stdout: "rendered 3 shots\n".to_string(),
        stderr: String::new(),
    }));
    assert_eq!(r, Ok("rendered 3 shots\n".to_string()));
}

#[test]
fn pipeline_error_carries_captured_stderr() {
    let r = run_pipeline(Ok(CommandOutput {
        success: false,
        stdout: "partial".to_string(),
        stderr: "TypeError: bad config\n".to_string(),
    }));
    let msg = r.unwrap_err();
    assert!(msg.contains("TypeError: bad config"));
    assert_eq!(msg, "TypeError: bad config\n");
}

#[test]
fn pipeline_reports_spawn_failure() {
    let r = run_pipeline(Err("program not found".to_string()));
    assert_eq!(r, Err("failed to execute node: program not found".to_string()));
}

#[test]
fn pipeline_script_lives_under_the_root() {
    assert_eq!(pipeline_script_path("/proj"), "/proj/scripts/pipeline.js");
}

#[test]
fn path_resolution_keeps_absolute_and_joins_relative() {
    assert_eq!(resolve_project_path("/proj", "/abs/file.txt"), "/abs/file.txt");
    assert_eq!(resolve_project_path("/proj", "rel/file.txt"), "/proj/rel/file.txt");
    assert_eq!(resolve_project_path("/proj/", "rel.txt"), "/proj/rel.txt");
    assert_eq!(resolve_project_path("/proj", "C:\\win\\file"), "C:\\win\\file");
    assert!(is_absolute_path("\\server\\share"));
    assert!(!is_absolute_path("C:relative"));
    assert_eq!(join_path("", "x"), "/x");
}

#[test]
fn project_root_is_three_levels_up() {
    assert_eq!(project_root("/repo/apps/desktop/src-tauri"), "/repo/apps/desktop/src-tauri/../../..");
}

#[test]
fn separators_normalize_to_forward_slashes() {
    assert_eq!(normalize_separators("a\\b/c\\d"), "a/b/c/d");
    assert_eq!(normalize_separators(""), "");
}

#[test]
fn parent_of_a_path() {
    assert_eq!(parent_path("a/b/c"), Some("a/b".to_string()));
    assert_eq!(parent_path("/a"), Some("/".to_string()));
    assert_eq!(parent_path("alone"), None);
}

#[test]
fn relative_display_strips_the_root() {
    assert_eq!(rel_display("/proj/x/y.png", "/proj"), "x/y.png");
    assert_eq!(rel_display("/proj", "/proj"), "");
    assert_eq!(rel_display("/elsewhere\\y.png", "/proj"), "/elsewhere/y.png");
}

#[test]
fn save_file_name_defaults() {
    assert_eq!(default_save_file_name(None), "project.storeshot.json");
    assert_eq!(default_save_file_name(Some("   ".to_string())), "project.storeshot.json");
    assert_eq!(default_save_file_name(Some(" my shots.json ".to_string())), "my shots.json");
}

#[test]
fn dialog_directory_decisions() {
    let r = resolve_dialog_directory("/proj", Some("out".to_string()), PathKind::Directory, PathKind::Missing);
    assert_eq!(r, Some("/proj/out".to_string()));
    let r = resolve_dialog_directory(
        "/proj",
        Some("out/file.json".to_string()),
        PathKind::File,
        PathKind::Directory,
    );
    assert_eq!(r, Some("/proj/out".to_string()));
    let r = resolve_dialog_directory(
        "/proj",
        Some("out/file.json".to_string()),
        PathKind::File,
        PathKind::Missing,
    );
    assert_eq!(r, None);
    let r = resolve_dialog_directory("/proj", Some("gone".to_string()), PathKind::Missing, PathKind::Missing);
    assert_eq!(r, None);
    let r = resolve_dialog_directory("/proj", Some("  ".to_string()), PathKind::Directory, PathKind::Directory);
    assert_eq!(r, None);
    let r = resolve_dialog_directory("/proj", None, PathKind::Directory, PathKind::Directory);
    assert_eq!(r, None);
}

#[test]
fn failure_messages_name_the_subject() {
    assert_eq!(
        spawn_failure_message("system_profiler", "not found"),
        "failed to execute system_profiler: not found"
    );
    assert_eq!(
        path_failure_message("failed to read ", "/proj/a.txt", "permission denied"),
        "failed to read /proj/a.txt: permission denied"
    );
}

#[test]
fn text_helpers_behave() {
    assert_eq!(trim("  a b\t"), "a b");
    assert_eq!(trim("\u{a0}x\u{3000}"), "x");
    assert_eq!(trim("   "), "");
    assert_eq!(split_char("a,b,,c", ','), strings(&["a", "b", "", "c"]));
    assert_eq!(split_char("abc", ','), strings(&["abc"]));
    assert_eq!(split_lines("a\r\nb\nlast"), strings(&["a", "b", "last"]));
    assert_eq!(split_lines("a\n"), strings(&["a"]));
    assert_eq!(split_lines(""), Vec::<String>::new());
    assert_eq!(strip_prefix("Family: Arial", "Family:"), Some(" Arial".to_string()));
    assert_eq!(strip_prefix("Familx: Arial", "Family:"), None);
    assert!(str_lt("SF Pro", "SF Pro Display"));
    assert!(!str_lt("b", "a"));
    assert!(!str_lt("a", "a"));
}
