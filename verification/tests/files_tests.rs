use toyoterm::api::{PaneId, PaneLaunchSpec, SplitDirection};
use toyoterm::cli::{
    is_gui_option, parse_cli_command, parse_direction, parse_gui_command, parse_gui_options,
    parse_u64, script, CliAction, RemoteRequest, Shell,
};
use toyoterm::config::{
    config_path_for_home, default_ansi_colors, default_config_path, home_directory_from_env,
    BackgroundImage,
};
use toyoterm::downloads::{
    background_image_components, prepare_download, queue_upload_cancel, queue_upload_cancel_pane,
    safe_filename, unique_name, upload_data_frames, upload_error_responses, upload_request_path,
    upload_status, DownloadRequest,
};
use toyoterm::pty::{pty_command_for_launch, NativePty, PtyCommand, PtySize};

fn args(words: &[&str]) -> Vec<String> {
    words.iter().map(|word| word.to_string()).collect()
}

#[test]
fn sanitizes_download_names() {
    assert_eq!(safe_filename("../../bad<name>.txt"), "bad_name_.txt");
    assert_eq!(safe_filename("CON.txt"), "Unnamed file");
    assert_eq!(safe_filename("dir\\report. . "), "report");
    assert_eq!(safe_filename("..."), "Unnamed file");
    assert_eq!(safe_filename("lpt7"), "Unnamed file");
    assert_eq!(safe_filename("lpt0"), "lpt0");
}

#[test]
fn long_download_names_are_cut_to_the_byte_limit() {
    let long = "é".repeat(200);
    let safe = safe_filename(&long);
    assert_eq!(safe.len(), 240);
    assert_eq!(safe.chars().count(), 120);
}

#[test]
fn numbered_download_names_keep_the_extension() {
    assert_eq!(unique_name("file.txt", 0), "file.txt");
    assert_eq!(unique_name("file.txt", 1), "file (1).txt");
    assert_eq!(unique_name("archive.tar.gz", 12), "archive.tar (12).gz");
    assert_eq!(unique_name(".bashrc", 2), ".bashrc (2)");
    assert_eq!(unique_name("notes", 3), "notes (3)");
    assert_eq!(unique_name("", 4), "file (4)");
}

#[test]
fn downloads_need_an_absolute_directory_and_a_bounded_size() {
    assert_eq!(
        prepare_download(false, "rel", None, vec![1], None, None),
        Err("OSC download directory must be absolute".to_owned())
    );
    assert_eq!(
        prepare_download(true, "/tmp", Some("a/b.txt"), vec![1, 2], Some(0o600), Some(7)),
        Ok(DownloadRequest::Single {
            directory: "/tmp".into(),
            name: "b.txt".into(),
            data: vec![1, 2],
            permissions: Some(0o600),
            modified_ns: Some(7),
        })
    );
    let too_big = vec![0u8; toyoterm::downloads::MAX_DOWNLOAD_BYTES + 1];
    assert_eq!(
        prepare_download(true, "/tmp", None, too_big, None, None),
        Err("OSC download exceeds the 32 MiB limit".to_owned())
    );
    assert_eq!(
        queue_upload_cancel(PaneId(3), "s".into()),
        DownloadRequest::UploadCancel {
            pane: PaneId(3),
            session_id: "s".into()
        }
    );
    assert_eq!(
        queue_upload_cancel_pane(PaneId(3)),
        DownloadRequest::UploadCancelPane { pane: PaneId(3) }
    );
}

#[test]
fn upload_reports_encode_their_payloads() {
    assert_eq!(
        upload_status("s1", Some("f1"), "OK"),
        "\x1b]5113;ac=status;id=s1;fid=f1;st=T0s=\x1b\\"
    );
    assert_eq!(
        upload_status("s1", None, "/"),
        "\x1b]5113;ac=status;id=s1;st=Lw==\x1b\\"
    );
    assert!(upload_error_responses("s1", None, 2, "EPERM:x").is_empty());
    assert_eq!(upload_error_responses("s1", None, 1, "EPERM:x").len(), 1);

    let frames = upload_data_frames("s", "f", b"upload payload".to_vec(), false);
    assert_eq!(
        frames,
        vec![
            "\x1b]5113;ac=data;id=s;fid=f;d=dXBsb2FkIHBheWxvYWQ=\x1b\\".to_owned(),
            "\x1b]5113;ac=end_data;id=s;fid=f\x1b\\".to_owned(),
        ]
    );
    let chunks = upload_data_frames("s", "f", vec![7u8; 4096 * 2 + 1], false);
    assert_eq!(chunks.len(), 4);
    let empty = upload_data_frames("s", "f", Vec::new(), false);
    assert_eq!(empty, vec!["\x1b]5113;ac=end_data;id=s;fid=f\x1b\\".to_owned()]);
    let packed = upload_data_frames("s", "f", vec![1u8; 10_000], true);
    assert!(packed.len() >= 2);
    assert!(packed.last().unwrap().contains("end_data"));
}

#[test]
fn background_image_paths_stay_below_the_root() {
    assert_eq!(
        background_image_components("~/themes/sky.png"),
        Ok(vec!["themes".to_owned(), "sky.png".to_owned()])
    );
    assert_eq!(
        background_image_components("sky.png"),
        Ok(vec!["sky.png".to_owned()])
    );
    assert_eq!(
        background_image_components("/"),
        Err("OSC background-image path is empty".to_owned())
    );
    assert_eq!(
        background_image_components("themes/../secret"),
        Err("OSC background-image path is outside the configured root".to_owned())
    );
    assert!(background_image_components("a//b").is_err());
    assert!(background_image_components("c:/x").is_err());
}

#[test]
fn upload_requests_need_a_rooted_path() {
    assert_eq!(upload_request_path("relative"), None);
    assert_eq!(upload_request_path("~/"), Some((Vec::new(), "/".to_owned())));
    assert_eq!(
        upload_request_path("/docs/a.txt"),
        Some((vec!["docs".to_owned(), "a.txt".to_owned()], "/docs/a.txt".to_owned()))
    );
    assert_eq!(upload_request_path("/docs/./a.txt"), None);
}

#[test]
fn default_ansi_palette_has_all_sixteen_slots_in_order() {
    assert_eq!(
        default_ansi_colors(),
        [
            "#000000", "#cd0000", "#00cd00", "#cdcd00", "#0000ee", "#cd00cd", "#00cdcd", "#e5e5e5",
            "#7f7f7f", "#ff0000", "#00ff00", "#ffff00", "#5c5cff", "#ff00ff", "#00ffff", "#ffffff",
        ]
    );
}

#[test]
fn config_path_is_derived_from_the_home_directory() {
    assert_eq!(
        config_path_for_home("/home/example"),
        "/home/example/.config/toyoterm/config.rb"
    );
    assert_eq!(
        default_config_path(Some("/home/example".into())),
        Some(config_path_for_home("/home/example"))
    );
}

#[test]
fn missing_or_empty_home_directory_is_ignored() {
    assert_eq!(home_directory_from_env(None), None);
    assert_eq!(home_directory_from_env(Some(String::new())), None);
    assert_eq!(
        home_directory_from_env(Some("relative-home".into())),
        Some("relative-home".to_owned())
    );
    assert_eq!(default_config_path(Some(String::new())), None);
}

#[test]
fn rejects_undecodable_background_images() {
    assert!(BackgroundImage::decode("invalid.png".into(), b"not an image").is_err());
}

#[test]
fn rejects_zero_sized_terminals() {
    let error = NativePty::check_size("open PTY", PtySize::new(0, 24)).unwrap_err();
    assert_eq!(error.operation(), "open PTY");
    assert_eq!(error.message(), "terminal dimensions must be non-zero");
    assert!(NativePty::check_size("open PTY", PtySize::new(80, 24)).is_ok());
    assert_eq!(PtySize::default(), PtySize::new(80, 24));
}

#[test]
fn pane_launch_removes_stale_outer_terminal_identity() {
    let mut launch = PaneLaunchSpec {
        program: Some("sh".into()),
        args: vec!["-c".into(), "true".into()],
        cwd: Some("/work".into()),
        environment: vec![
            ("TMUX".into(), Some("outer".into())),
            ("KEEP".into(), Some("1".into())),
            ("DROP".into(), None),
        ],
    };
    let command = pty_command_for_launch(Some("bash"), Some(&launch), "0.1.0");
    assert_eq!(command.program.as_deref(), Some("sh"));
    assert_eq!(command.args, vec!["-c".to_owned(), "true".to_owned()]);
    assert_eq!(command.cwd.as_deref(), Some("/work"));
    let value = |key: &str| {
        command
            .environment
            .iter()
            .find(|(name, _)| name == key)
            .map(|(_, value)| value.clone())
    };
    assert_eq!(value("TMUX"), Some(None));
    assert_eq!(value("KEEP"), Some(Some("1".to_owned())));
    assert_eq!(value("DROP"), Some(None));
    assert_eq!(value("TERM"), Some(Some("xterm-256color".to_owned())));
    assert_eq!(value("TERM_PROGRAM"), Some(Some("toyoterm".to_owned())));
    assert_eq!(value("TERM_PROGRAM_VERSION"), Some(Some("0.1.0".to_owned())));
    assert_eq!(value("WT_SESSION"), Some(None));

    launch.program = None;
    let shell = pty_command_for_launch(Some("bash"), Some(&launch), "0.1.0");
    assert_eq!(shell.program.as_deref(), Some("bash"));
    let default = pty_command_for_launch(None, None, "0.1.0");
    assert_eq!(default.program, None);
    assert!(default.args.is_empty());
}

#[test]
fn pty_commands_replace_environment_entries() {
    let mut command = PtyCommand::new("sh");
    command.env("A", "1");
    command.env("A", "2");
    command.env_remove("B");
    assert_eq!(
        command.environment,
        vec![("A".to_owned(), Some("2".to_owned())), ("B".to_owned(), None)]
    );
}

#[test]
fn resolves_supported_shell_names() {
    assert_eq!(script("BASH"), Some(Shell::Bash));
    assert_eq!(script("pwsh"), Some(Shell::PowerShell));
    assert_eq!(script("powershell"), Some(Shell::PowerShell));
    assert_eq!(script("nu"), None);
}

#[test]
fn parses_gui_options() {
    let options = parse_gui_options(&args(&["--title", "T", "--dir=/w", "-e", "vim", "a.txt"])).unwrap();
    assert_eq!(options.title.as_deref(), Some("T"));
    let launch = options.initial_pane.unwrap();
    assert_eq!(launch.program.as_deref(), Some("vim"));
    assert_eq!(launch.args, vec!["a.txt".to_owned()]);
    assert_eq!(launch.cwd.as_deref(), Some("/w"));

    assert_eq!(
        parse_gui_options(&args(&["--config"])),
        Err("--config requires a path".to_owned())
    );
    assert_eq!(
        parse_gui_options(&args(&["--config="])),
        Err("--config requires a value".to_owned())
    );
    assert_eq!(
        parse_gui_options(&args(&["--dir"])),
        Err("--dir requires a value".to_owned())
    );
    assert_eq!(
        parse_gui_options(&args(&["--"])),
        Err("-- requires a command".to_owned())
    );
    assert_eq!(
        parse_gui_options(&args(&["--bogus"])),
        Err("unexpected GUI argument `--bogus`".to_owned())
    );
    assert!(is_gui_option("--app-id=x"));
    assert!(!is_gui_option("gui"));
    assert_eq!(parse_gui_command(&args(&[])).unwrap().title, None);
    assert_eq!(
        parse_gui_command(&args(&["gui", "--app-id", "id"])).unwrap().app_id.as_deref(),
        Some("id")
    );
    assert_eq!(
        parse_gui_command(&args(&["gui", "x"])),
        Err("unexpected GUI argument `x`".to_owned())
    );
}

#[test]
fn parses_cli_commands() {
    assert_eq!(parse_cli_command(&args(&[])), Ok(CliAction::Gui));
    assert_eq!(
        parse_cli_command(&args(&["--config", "/c.rb"])),
        Ok(CliAction::GuiWithConfig("/c.rb".into()))
    );
    assert_eq!(
        parse_cli_command(&args(&["list", "x"])),
        Err("unexpected argument `x`".to_owned())
    );
    assert_eq!(
        parse_cli_command(&args(&["cli", "send-text", "--pane", "+7", "echo", "hi"])),
        Ok(CliAction::Remote(RemoteRequest::SendText {
            pane: PaneId(7),
            text: "echo hi".into()
        }))
    );
    assert_eq!(
        parse_cli_command(&args(&["cli", "send-text", "--pane", "x", "hi"])),
        Err("pane ID must be an unsigned integer".to_owned())
    );
    assert_eq!(
        parse_cli_command(&args(&["cli", "split", "--direction", "up"])),
        Ok(CliAction::Remote(RemoteRequest::Split {
            direction: SplitDirection::Up
        }))
    );
    assert_eq!(
        parse_cli_command(&args(&["cli", "split"])),
        Ok(CliAction::Remote(RemoteRequest::Split {
            direction: SplitDirection::Right
        }))
    );
    assert_eq!(
        parse_cli_command(&args(&["shell-integration", "ZSH"])),
        Ok(CliAction::ShellIntegration(Shell::Zsh))
    );
    assert_eq!(
        parse_cli_command(&args(&["shell-integration", "nu"])),
        Err("unsupported shell `nu`; expected bash, zsh, fish, or powershell".to_owned())
    );
    assert_eq!(
        parse_cli_command(&args(&["frobnicate"])),
        Err("unknown command `frobnicate`; try `toyoterm help`".to_owned())
    );
    assert_eq!(
        parse_direction("sideways"),
        Err("invalid split direction `sideways`; expected left, right, up, or down".to_owned())
    );
    assert_eq!(parse_u64("18446744073709551615"), Some(u64::MAX));
    assert_eq!(parse_u64("18446744073709551616"), None);
    assert_eq!(parse_u64("+"), None);
    assert_eq!(parse_u64(""), None);
}

#[test]
fn upload_paths_stay_below_the_root() {
    assert!(toyoterm::downloads::resolve_upload_path("/../secret").is_none());
    assert!(toyoterm::downloads::resolve_upload_path("/C:/secret").is_none());
    assert!(toyoterm::downloads::resolve_upload_path("relative/file").is_none());
    assert!(toyoterm::downloads::resolve_upload_path("/a//b").is_none());
    let (parts, path) = toyoterm::downloads::resolve_upload_path("~/folder/file.txt").unwrap();
    assert_eq!(parts, vec!["folder".to_string(), "file.txt".to_string()]);
    assert_eq!(path, "/folder/file.txt");
    let (parts, path) = toyoterm::downloads::resolve_upload_path("/").unwrap();
    assert!(parts.is_empty());
    assert_eq!(path, "/");
}

#[test]
fn full_or_stopped_queues_report_their_worker() {
    use_send_failure_messages();
}

fn use_send_failure_messages() {
    let message = toyoterm::downloads::send_failure_message;
    let (download, transfer) =
        (toyoterm::downloads::JobQueue::Download, toyoterm::downloads::JobQueue::FileTransfer);
    let (full, stopped) =
        (toyoterm::downloads::SendFailure::Full, toyoterm::downloads::SendFailure::Disconnected);
    assert_eq!(message(download, full), "OSC download queue is full");
    assert_eq!(message(download, stopped), "OSC download worker stopped");
    assert_eq!(message(transfer, full), "OSC file transfer queue is full");
    assert_eq!(message(transfer, stopped), "OSC file transfer worker stopped");
}
