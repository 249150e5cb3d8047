use bezier_emporium::meaningless_bytes::MeaninglessBytes;
use bezier_emporium::pixel_grid::{PixelGrid, Resolution};
use bezier_emporium::point_and_color::Color;
use bezier_emporium::possible_normal_termination::PossibleNormalTermination;
use bezier_emporium::session::{
    final_output, on_quit_request, save_format, save_format_for_extension, window_title, Cli,
    FinalOutput, QuitAction, SaveFormat, WorldLoadFailure, APP_NAME,
};
use bezier_emporium::splines::{spline_segments, validate_cubic_spline_points, InvalidSplinePoints};
use bezier_emporium::user_interaction_helpers::{
    alert_about_error, alert_about_invalid_world_file, alert_about_io_error_with_world_file,
    conference_report, confirmation_from_answer, message_box_flag_as_str,
    report_file_dialog_failure, we_are_alerting_through_the_gui, world_file_message_after_error,
    AlertKind, CANCEL_BUTTON_ID, CONFIRMATION_BUTTON_ID,
};

fn ppm(grid: &PixelGrid) -> String {
    let mut bytes = Vec::new();
    grid.save_as_ppm(&mut bytes);
    String::from_utf8(bytes).unwrap()
}

fn cli(world: Option<&str>, output: Option<&str>) -> Cli {
    Cli {
        world_path: world.map(|s| s.to_string()),
        output_path: output.map(|s| s.to_string()),
    }
}

#[test]
fn color_new_keeps_channels() {
    let c = Color::new(12, 0, 255);
    assert_eq!(c.rgb(), (12, 0, 255));
    assert_eq!((c.0, c.1, c.2), (12, 0, 255));
}

#[test]
fn meaningless_bytes_default_is_usable_as_padding() {
    let _padding: MeaninglessBytes<1> = MeaninglessBytes::default();
    let _wide: MeaninglessBytes<4> = Default::default();
    assert_eq!(std::mem::size_of::<MeaninglessBytes<4>>(), 4);
    assert_eq!(std::mem::size_of::<Color>(), 4);
}

#[test]
fn possible_normal_termination_variants() {
    let go: PossibleNormalTermination<u8> = PossibleNormalTermination::Continue(7);
    let stop: PossibleNormalTermination<u8> = PossibleNormalTermination::Terminate;
    assert!(matches!(go, PossibleNormalTermination::Continue(7)));
    assert!(matches!(stop, PossibleNormalTermination::Terminate));
}

#[test]
fn new_grid_is_black_with_the_resolution() {
    let grid = PixelGrid::new(Resolution { width: 3, height: 2 });
    assert_eq!(grid.0.len(), 2);
    for row in &grid.0 {
        assert_eq!(row.len(), 3);
        for pixel in row {
            assert_eq!(pixel.rgb(), (0, 0, 0));
        }
    }
}

#[test]
fn empty_resolution_gives_empty_grid() {
    let grid = PixelGrid::new(Resolution { width: 5, height: 0 });
    assert!(grid.0.is_empty());
    let flat = PixelGrid::new(Resolution { width: 0, height: 2 });
    assert_eq!(flat.0.len(), 2);
    assert!(flat.0.iter().all(|row| row.is_empty()));
}

#[test]
fn contains_checks_both_coordinates() {
    let grid = PixelGrid::new(Resolution { width: 4, height: 2 });
    assert!(grid.contains(0, 0));
    assert!(grid.contains(3, 1));
    assert!(!grid.contains(4, 1));
    assert!(!grid.contains(3, 2));
}

#[test]
fn set_pixel_changes_one_pixel() {
    let mut grid = PixelGrid::new(Resolution { width: 3, height: 2 });
    grid.set_pixel(2, 1, Color::new(9, 8, 7));
    for y in 0..2 {
        for x in 0..3 {
            let expected = if (x, y) == (2, 1) { (9, 8, 7) } else { (0, 0, 0) };
            assert_eq!(grid.0[y][x].rgb(), expected);
        }
    }
}

#[test]
fn row_major_reads_rows_in_order() {
    let mut grid = PixelGrid::new(Resolution { width: 2, height: 2 });
    grid.set_pixel(1, 0, Color::new(1, 1, 1));
    grid.set_pixel(0, 1, Color::new(2, 2, 2));
    let pixels: Vec<(u8, u8, u8)> = grid.row_major().iter().map(|c| c.rgb()).collect();
    assert_eq!(pixels, vec![(0, 0, 0), (1, 1, 1), (2, 2, 2), (0, 0, 0)]);
}

#[test]
fn set_pixel_shows_at_row_major_position() {
    let width = 5;
    let mut grid = PixelGrid::new(Resolution { width, height: 4 });
    grid.set_pixel(3, 2, Color::new(40, 50, 60));
    let pixels = grid.row_major();
    assert_eq!(pixels.len(), 20);
    for (i, p) in pixels.iter().enumerate() {
        let expected = if i == 2 * width + 3 { (40, 50, 60) } else { (0, 0, 0) };
        assert_eq!(p.rgb(), expected);
    }
}

#[test]
fn ppm_of_one_row() {
    let mut grid = PixelGrid::new(Resolution { width: 2, height: 1 });
    grid.set_pixel(0, 0, Color::new(255, 0, 7));
    grid.set_pixel(1, 0, Color::new(10, 200, 3));
    assert_eq!(ppm(&grid), "P3\n2 1\n255\n255 0 7 10 200 3 \n");
}

#[test]
fn ppm_header_gives_width_then_height() {
    let grid = PixelGrid::new(Resolution { width: 3, height: 2 });
    assert_eq!(
        ppm(&grid),
        "P3\n3 2\n255\n0 0 0 0 0 0 0 0 0 \n0 0 0 0 0 0 0 0 0 \n"
    );
}

#[test]
fn ppm_of_rows_without_pixels() {
    let grid = PixelGrid::new(Resolution { width: 0, height: 2 });
    assert_eq!(ppm(&grid), "P3\n0 2\n255\n\n\n");
}

#[test]
fn ppm_of_two_wide_one_high() {
    let grid = PixelGrid::new(Resolution { width: 2, height: 1 });
    let mut dest = Vec::<u8>::new();
    grid.save_as_ppm(&mut dest);
    assert_eq!(dest, b"P3\n2 1\n255\n0 0 0 0 0 0 \n".to_vec());
}

#[test]
fn ppm_appends_to_what_is_there() {
    let grid = PixelGrid::new(Resolution { width: 1, height: 1 });
    let mut bytes = b"xyz".to_vec();
    grid.save_as_ppm(&mut bytes);
    assert_eq!(bytes, b"xyzP3\n1 1\n255\n0 0 0 \n".to_vec());
}

#[test]
fn ppm_numbers_read_back_as_channels() {
    let mut grid = PixelGrid::new(Resolution { width: 3, height: 1 });
    grid.set_pixel(0, 0, Color::new(0, 9, 10));
    grid.set_pixel(1, 0, Color::new(99, 100, 101));
    grid.set_pixel(2, 0, Color::new(199, 200, 255));
    let text = ppm(&grid);
    let numbers: Vec<usize> = text
        .split_whitespace()
        .skip(1)
        .map(|w| w.parse().unwrap())
        .collect();
    assert_eq!(
        numbers,
        vec![3, 1, 255, 0, 9, 10, 99, 100, 101, 199, 200, 255]
    );
}

#[test]
fn ppm_of_large_grid_has_multi_digit_dimensions() {
    let grid = PixelGrid::new(Resolution { width: 400, height: 400 });
    let text = ppm(&grid);
    assert!(text.starts_with("P3\n400 400\n255\n"));
    assert_eq!(text.lines().count(), 3 + 400);
}

#[test]
fn spline_point_counts() {
    for n in 0..12usize {
        let points: Vec<usize> = (0..n).collect();
        let valid = n >= 4 && (n - 1) % 3 == 0;
        match validate_cubic_spline_points(points.clone()) {
            Ok(kept) => {
                assert!(valid, "{n} points accepted");
                assert_eq!(kept, points);
            }
            Err(e) => {
                assert!(!valid, "{n} points refused");
                assert_eq!(e.len, n);
            }
        }
    }
}

#[test]
fn spline_refusal_text() {
    assert_eq!(
        InvalidSplinePoints::expected(),
        "a valid sequence of points for a cubic spline - a sequence of at least length 4, which is 1 greater than a multiple of 3"
    );
}

#[test]
fn spline_segments_of_seven_points() {
    let points: Vec<u32> = vec![10, 11, 12, 13, 14, 15, 16];
    assert_eq!(
        spline_segments(&points),
        vec![(10, 11, 12, 13), (13, 14, 15, 16)]
    );
}

#[test]
fn spline_segments_of_other_counts() {
    let few: Vec<u8> = vec![1, 2, 3];
    assert!(spline_segments(&few).is_empty());
    let none: Vec<u8> = vec![];
    assert!(spline_segments(&none).is_empty());
    let four: Vec<u8> = vec![1, 2, 3, 4];
    assert_eq!(spline_segments(&four), vec![(1, 2, 3, 4)]);
    let five: Vec<u8> = vec![1, 2, 3, 4, 5];
    assert_eq!(spline_segments(&five), vec![(1, 2, 3, 4)]);
    let eight: Vec<u8> = (0..8).collect();
    assert_eq!(spline_segments(&eight), vec![(0, 1, 2, 3), (3, 4, 5, 6)]);
}

#[test]
fn spline_pieces_chain_from_first_to_last_point() {
    let points: Vec<i64> = (0..13).map(|i| i * i).collect();
    let pieces = spline_segments(&points);
    assert_eq!(pieces.len(), 4);
    assert_eq!(pieces[0].0, points[0]);
    for k in 0..pieces.len() - 1 {
        assert_eq!(pieces[k].3, pieces[k + 1].0);
    }
    assert_eq!(pieces[3].3, *points.last().unwrap());
}

#[test]
fn alert_kind_names() {
    assert_eq!(message_box_flag_as_str(AlertKind::Error), "ERROR");
    assert_eq!(message_box_flag_as_str(AlertKind::Warning), "WARNING");
    assert_eq!(message_box_flag_as_str(AlertKind::Information), "INFORMATION");
}

#[test]
fn alerts_from_arguments_do_not_use_the_window() {
    assert!(!we_are_alerting_through_the_gui(true));
    assert!(we_are_alerting_through_the_gui(false));
    assert_eq!(world_file_message_after_error(true), "");
    assert_eq!(
        world_file_message_after_error(false),
        "\nYou will be prompted for a new world file once you dismiss this message."
    );
}

#[test]
fn alert_about_error_wraps_the_error() {
    let a = alert_about_error(false, "oops", "<", ">");
    assert!(!a.from_arg);
    assert_eq!(a.kind, AlertKind::Error);
    assert_eq!(a.title, "Invalid World File");
    assert_eq!(a.message, "<oops>");
    assert!(a.through_gui());
    assert_eq!(a.command_line_report(), "ERROR: <oops>");
}

#[test]
fn invalid_world_file_alerts() {
    let from_arg = alert_about_invalid_world_file(true, "bad json");
    assert!(from_arg.from_arg);
    assert!(!from_arg.through_gui());
    assert_eq!(
        from_arg.message,
        "The world file specified as an argument failed to parse with this error:\nbad json"
    );
    let picked = alert_about_invalid_world_file(false, "bad json");
    assert!(picked.through_gui());
    assert_eq!(
        picked.message,
        "The world file failed to parse with this error:\nbad json\nYou will be prompted for a new world file once you dismiss this message."
    );
    assert_eq!(picked.title, "Invalid World File");
}

#[test]
fn io_error_world_file_alerts() {
    let from_arg = alert_about_io_error_with_world_file(true, "no such file");
    assert_eq!(
        from_arg.message,
        "There was an I/O error in reading the world file specified as an argument. Its description reads:\nno such file"
    );
    let picked = alert_about_io_error_with_world_file(false, "denied");
    assert_eq!(
        picked.message,
        "THIS WAS SLIGHTLY UNEXPECTED! :P\nPlease contact the maintainer with this error message.\nThere was an I/O error in reading the world file specified. Its description reads:\ndenied\nYou will be prompted for a new world file once you dismiss this message."
    );
    assert_eq!(picked.kind, AlertKind::Error);
}

#[test]
fn file_dialog_failure_alert() {
    let a = report_file_dialog_failure();
    assert!(!a.from_arg);
    assert_eq!(a.kind, AlertKind::Information);
    assert_eq!(a.title, "No Path Provided");
    assert_eq!(a.message, "We didn't get a path back from the dialog box.");
    assert_eq!(
        a.command_line_report(),
        "INFORMATION: We didn't get a path back from the dialog box."
    );
}

#[test]
fn conference_lines_and_answers() {
    assert_eq!(
        conference_report(AlertKind::Warning, "Really"),
        "WARNING: Really.\n This needs your attention on the currently open window."
    );
    assert_ne!(CANCEL_BUTTON_ID, CONFIRMATION_BUTTON_ID);
    assert!(confirmation_from_answer(Some(CONFIRMATION_BUTTON_ID)));
    assert!(!confirmation_from_answer(Some(CANCEL_BUTTON_ID)));
    assert!(!confirmation_from_answer(Some(7)));
    assert!(!confirmation_from_answer(None));
}

#[test]
fn validate_keeps_image_paths() {
    let c = cli(Some("w.json"), Some("out.ppm")).validate();
    assert_eq!(c.world_path.as_deref(), Some("w.json"));
    assert_eq!(c.output_path.as_deref(), Some("out.ppm"));
    let c = cli(None, Some("dir/out.bmp")).validate();
    assert_eq!(c.world_path, None);
    assert_eq!(c.output_path.as_deref(), Some("dir/out.bmp"));
}

#[test]
fn validate_drops_other_paths() {
    for path in ["out.png", "out", ".ppm", "out.PPM", "-", "out.ppm.txt", "out."] {
        let c = cli(Some("w.json"), Some(path)).validate();
        assert_eq!(c.output_path, None, "{path}");
        assert_eq!(c.world_path.as_deref(), Some("w.json"));
    }
    let c = cli(Some("w.json"), None).validate();
    assert_eq!(c.output_path, None);
}

#[test]
fn validate_with_given_extension() {
    let c = cli(None, Some("anything")).validate_with_extension(Some("bmp".to_string()));
    assert_eq!(c.output_path.as_deref(), Some("anything"));
    let c = cli(None, Some("x.ppm")).validate_with_extension(Some("gif".to_string()));
    assert_eq!(c.output_path, None);
    let c = cli(None, Some("x.ppm")).validate_with_extension(None);
    assert_eq!(c.output_path, None);
}

#[test]
fn validate_twice_is_validate_once() {
    for path in ["a.ppm", "a.bmp", "a.jpg", "a"] {
        let once = cli(Some("w"), Some(path)).validate();
        let twice = once.validate();
        assert_eq!(once.output_path, twice.output_path);
        assert_eq!(once.world_path, twice.world_path);
    }
}

#[test]
fn validated_output_is_saveable() {
    for path in ["a.ppm", "b/c.bmp", "a.jpg", "x"] {
        if let Some(kept) = cli(None, Some(path)).validate().output_path {
            assert_ne!(save_format(&kept), SaveFormat::Unsupported);
        }
    }
}

#[test]
fn save_formats() {
    assert_eq!(save_format("image.ppm"), SaveFormat::Ppm);
    assert_eq!(save_format("some/dir/image.bmp"), SaveFormat::Bmp);
    assert_eq!(save_format("image.png"), SaveFormat::Unsupported);
    assert_eq!(save_format("image"), SaveFormat::Unsupported);
    assert_eq!(save_format(".bmp"), SaveFormat::Unsupported);
    assert_eq!(save_format_for_extension(Some("ppm".to_string())), SaveFormat::Ppm);
    assert_eq!(save_format_for_extension(Some("bmp".to_string())), SaveFormat::Bmp);
    assert_eq!(save_format_for_extension(Some("BMP".to_string())), SaveFormat::Unsupported);
    assert_eq!(save_format_for_extension(None), SaveFormat::Unsupported);
}

#[test]
fn final_outputs() {
    assert!(matches!(final_output(Some("-".to_string())), FinalOutput::Stdout));
    match final_output(Some("pic.ppm".to_string())) {
        FinalOutput::File(p) => assert_eq!(p, "pic.ppm"),
        _ => panic!("expected a file"),
    }
    assert!(matches!(final_output(None), FinalOutput::Nothing));
}

#[test]
fn quit_requests() {
    assert_eq!(on_quit_request(true, true), QuitAction::AskFirst);
    assert_eq!(on_quit_request(true, false), QuitAction::Quit);
    assert_eq!(on_quit_request(false, true), QuitAction::Quit);
    assert_eq!(on_quit_request(false, false), QuitAction::Quit);
}

#[test]
fn window_titles() {
    assert_eq!(window_title("world.json"), format!("world.json - {APP_NAME}"));
    assert_eq!(APP_NAME, "Skean's Wonderful Bézier Emporium");
}

#[test]
fn world_load_failures() {
    let mut c = cli(Some("w.json"), Some("o.ppm"));
    let a = c.on_world_load_failure(WorldLoadFailure::Invalid, false, "e");
    assert_eq!(c.world_path.as_deref(), Some("w.json"));
    assert_eq!(c.output_path.as_deref(), Some("o.ppm"));
    assert!(a.message.starts_with("The world file failed to parse"));

    let mut c = cli(Some("w.json"), None);
    let a = c.on_world_load_failure(WorldLoadFailure::Invalid, true, "e");
    assert_eq!(c.world_path, None);
    assert!(a.from_arg);
    assert_eq!(
        a.message,
        "The world file specified as an argument failed to parse with this error:\ne"
    );

    for from_arg in [false, true] {
        let mut c = cli(Some("w.json"), None);
        let a = c.on_world_load_failure(WorldLoadFailure::Io, from_arg, "gone");
        assert_eq!(c.world_path, None);
        assert_eq!(a.from_arg, from_arg);
        assert!(a.message.contains("I/O error"));
        assert!(a.message.contains("gone"));
    }
}
