use petit::tui::log_overlay::{centered_rect, int_string, Area, overlay_lines, overlay_title, OverlaySpan, SpanStyle, TaskLogs};

fn texts(line: &[OverlaySpan]) -> Vec<(&str, SpanStyle)> {
    line.iter().map(|s| (s.text.as_str(), s.style)).collect()
}

#[test]
fn overlay_for_a_failed_task() {
    let task = TaskLogs {
        task_id: "load".to_string(),
        exit_code: Some(2),
        stdout: Some("one\r\ntwo\n".to_string()),
        stderr: Some(String::new()),
        error: Some("boom\nbang".to_string()),
    };
    let lines = overlay_lines(&task);
    let got: Vec<Vec<(&str, SpanStyle)>> = lines.iter().map(|l| texts(l)).collect();
    let rule_out = "── stdout ──────────────────────────────────────────────────────────";
    let rule_err = "── stderr ──────────────────────────────────────────────────────────";
    let rule_error = "── error ───────────────────────────────────────────────────────────";
    let expected: Vec<Vec<(&str, SpanStyle)>> = vec![
        vec![("Task: ", SpanStyle::Label), ("load", SpanStyle::Active)],
        vec![("Exit Code: ", SpanStyle::Label), ("2", SpanStyle::Failure)],
        vec![("", SpanStyle::Plain)],
        vec![(rule_out, SpanStyle::Dim)],
        vec![("one", SpanStyle::Plain)],
        vec![("two", SpanStyle::Plain)],
        vec![("", SpanStyle::Plain)],
        vec![(rule_err, SpanStyle::Dim)],
        vec![("(empty)", SpanStyle::Dim)],
        vec![("", SpanStyle::Plain)],
        vec![(rule_error, SpanStyle::Failure)],
        vec![("boom", SpanStyle::Failure)],
        vec![("bang", SpanStyle::Failure)],
        vec![("", SpanStyle::Plain)],
        vec![("j/k: scroll │ PgUp/PgDn: page │ g: top │ q/Esc: close", SpanStyle::Dim)],
    ];
    assert_eq!(got, expected);
}

#[test]
fn overlay_for_a_running_task() {
    let task = TaskLogs {
        task_id: "t".to_string(),
        exit_code: None,
        stdout: None,
        stderr: Some("warn".to_string()),
        error: None,
    };
    let lines = overlay_lines(&task);
    assert_eq!(lines.len(), 9);
    assert_eq!(texts(&lines[3]), vec![("(no output captured)", SpanStyle::Dim)]);
    assert_eq!(texts(&lines[6]), vec![("warn", SpanStyle::Failure)]);
    let ok = TaskLogs { exit_code: Some(0), ..task };
    assert_eq!(texts(&overlay_lines(&ok)[1]), vec![("Exit Code: ", SpanStyle::Label), ("0", SpanStyle::Success)]);
}

#[test]
fn overlay_title_and_numbers() {
    assert_eq!(overlay_title("extract"), " Task Logs: extract ");
    assert_eq!(int_string(0), "0");
    assert_eq!(int_string(-1), "-1");
    assert_eq!(int_string(i32::MIN), "-2147483648");
    assert_eq!(int_string(127), "127");
}

#[test]
fn centered_rect_takes_the_middle() {
    let r = centered_rect(80, 80, Area { x: 0, y: 0, width: 100, height: 50 });
    assert_eq!(r, Area { x: 10, y: 5, width: 80, height: 40 });
    let full = centered_rect(100, 100, Area { x: 3, y: 4, width: 20, height: 10 });
    assert_eq!(full, Area { x: 3, y: 4, width: 20, height: 10 });
}

#[test]
fn centered_rect_stays_inside_its_area() {
    for (w, h, px, py) in [(7u16, 3u16, 80u16, 80u16), (1, 1, 50, 50), (200, 60, 33, 90), (0, 0, 80, 80)] {
        let area = Area { x: 5, y: 9, width: w, height: h };
        let r = centered_rect(px, py, area);
        assert!(r.x >= area.x && r.y >= area.y);
        assert!(r.x + r.width <= area.x + area.width);
        assert!(r.y + r.height <= area.y + area.height);
    }
}
