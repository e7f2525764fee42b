//! The background service: schedule, queue, log, requests and the helper.

use equinox::config::Config;
use equinox::daemon::{name_of, update_label, ApplyCheck, Cancelled, Daemon, Pick, Switch};
use equinox::date::Date;
use equinox::helper::{
    error_line, helper_arguments, parse_arguments, read_report, stored_line, BadArguments,
};
use equinox::history::{History, HistoryEntry};
use equinox::json::Json;
use equinox::queue::{PendingTask, Tasks};
use equinox::schedule::{
    after_failure, due_run, image_cap, missed_windows, plan_for, retry_wait, settings_of, tick,
    AfterFailure, DueRun, Plan, RetryWait, UpdateRun, UpdateStep,
};
use equinox::service::{
    entry_from_row, handle_method, history_rows, image_rows, log_rows, Action, Method, Params,
    Reply,
};
use equinox::source::{BuiltIn, SourceSettings, TextMap};
use equinox::storage::{ImageMeta, StoredImage};
use equinox::supervisor::{daemon_command, restarts};
use equinox::tasklog::{TaskLog, TaskLogEntry, MAX_ENTRIES};

fn daemon() -> Daemon {
    Daemon::new(
        Config::new(),
        History::from_entries(Vec::new()),
        TaskLog::from_entries(Vec::new()),
    )
}

fn log_entry(id: u64, end_ts: i64) -> TaskLogEntry {
    TaskLogEntry {
        id,
        start_ts: 1,
        end_ts,
        label: format!("task {id}"),
        kind: "manual".into(),
        source: "bing".into(),
        catchup: false,
        success: false,
        error: String::new(),
        done: 0,
        total: 0,
        retries: 0,
    }
}

fn params(first: &str, second: &str, number: i64) -> Params {
    Params { first: first.to_string(), second: second.to_string(), number }
}

// ------------------------------------------------------------ schedule

const HOUR: Plan = Plan { enabled: true, interval: 3600, last: 100_000 };

#[test]
fn runs_are_due_after_the_interval() {
    assert_eq!(due_run(HOUR, 103_599, 0), None);
    assert_eq!(due_run(HOUR, 103_600, 0), Some(false));
    assert_eq!(due_run(HOUR, 107_199, 0), Some(false));
    assert_eq!(due_run(HOUR, 107_200, 0), Some(true));
    // Catch-up runs wait after the start, others do not.
    assert_eq!(due_run(HOUR, 107_200, 107_180), None);
    assert_eq!(due_run(HOUR, 107_200, 107_170), Some(true));
    assert_eq!(due_run(HOUR, 103_600, 103_600), Some(false));
    assert_eq!(due_run(Plan { last: 0, ..HOUR }, 3600, 0), Some(true));
    assert_eq!(due_run(Plan { enabled: false, ..HOUR }, i64::MAX, 0), None);
    assert_eq!(due_run(Plan { last: i64::MIN, ..HOUR }, i64::MAX, 0), Some(true));
    // Once stamped, no run within the interval.
    assert_eq!(due_run(Plan { last: 107_200, ..HOUR }, 110_799, 0), None);
}

#[test]
fn ticks_and_missed_windows() {
    let mut c = Config::new();
    c.set_update_enabled("nasa", true);
    c.set_update_enabled("bing", true);
    c.set_last_updated_at("bing", 1_000_000);
    c.set_last_updated_at("nasa", 1_003_000);
    let map = c.source_settings_map();
    assert_eq!(
        tick(&map, 1_003_600, 0),
        vec![DueRun { source: BuiltIn::Bing, catchup: false }]
    );
    assert_eq!(tick(&map, 1_003_599, 0), vec![]);
    assert_eq!(
        tick(&map, 1_010_200, 0),
        vec![
            DueRun { source: BuiltIn::Bing, catchup: true },
            DueRun { source: BuiltIn::Nasa, catchup: true },
        ]
    );
    assert_eq!(missed_windows(&map, 1_003_600), vec![]);
    assert_eq!(missed_windows(&map, 1_003_601), vec![BuiltIn::Bing]);
    assert_eq!(plan_for(&map, "bing").last, 1_000_000);
    assert_eq!(plan_for(&map, "picsum"), Plan { enabled: false, interval: 3600, last: 0 });
    assert!(settings_of(&map, "nasa").get_bool("update-enabled", false));
}

#[test]
fn updates_go_back_day_by_day() {
    let today = Date { year: 2024, month: 3, day: 1 };
    let mut s = SourceSettings::default();
    s.set("index", Json::Int(2));
    let mut run = UpdateRun::new(BuiltIn::Bing, &s, today);
    assert_eq!(run.total, 3);
    assert_eq!(run.next(false, false), UpdateStep::Fetch { index: 0, day: today });
    assert!(run.fetched(false));
    // 2024 is a leap year.
    assert_eq!(run.day(), Some(Date { year: 2024, month: 2, day: 29 }));
    assert_eq!(run.next(false, true), UpdateStep::Skipped);
    assert_eq!(
        run.next(false, false),
        UpdateStep::Fetch { index: 2, day: Date { year: 2024, month: 2, day: 28 } }
    );
    assert_eq!(run.next(true, false), UpdateStep::Cancelled);
    // A helper that was ended by a cancel leaves no failure behind.
    assert_eq!(run.failed(true, "exited with status signal".into(), "cancelled"), "cancelled");
    assert_eq!(run.failed(false, "HTTP NotFound".into(), "cancelled"), "HTTP NotFound");
    assert!(!run.fetched(true));
    assert!(run.fetched(false));
    assert_eq!(run.next(true, true), UpdateStep::Finished);
    // A rotating source fetches though the day is stored.
    let mut run = UpdateRun::new(BuiltIn::Spotlight, &SourceSettings::default(), today);
    assert_eq!(run.next(false, true), UpdateStep::Fetch { index: 0, day: today });
}

#[test]
fn retries_and_caps() {
    assert_eq!(after_failure(false, 0, false), AfterFailure::GiveUp);
    assert_eq!(after_failure(false, 0, true), AfterFailure::Cancelled);
    assert_eq!(after_failure(true, 3, false), AfterFailure::GiveUp);
    assert_eq!(after_failure(true, 0, false), AfterFailure::Retry);
    assert_eq!(after_failure(true, 2, true), AfterFailure::Cancelled);
    assert_eq!(after_failure(true, 3, true), AfterFailure::Cancelled);
    assert_eq!(retry_wait(29_999, false), RetryWait::Wait);
    assert_eq!(retry_wait(30_000, false), RetryWait::Retry);
    assert_eq!(retry_wait(0, true), RetryWait::Cancelled);
    let mut s = SourceSettings::default();
    assert_eq!(image_cap(&s), 100);
    s.set("max-images", Json::Int(-1));
    assert_eq!(image_cap(&s), 0);
}

// --------------------------------------------------------- queue, log

fn task(id: u64) -> PendingTask {
    PendingTask { label: String::new(), source: "bing".into(), log_id: id, scheduled: false }
}

#[test]
fn queue_is_serial_and_first_come_first_served() {
    let mut t = Tasks::new();
    assert!(t.pump().is_none());
    for id in 1..=3 {
        t.enqueue(task(id));
    }
    assert_eq!(t.pump().unwrap().log_id, 1);
    assert!(t.pump().is_none());
    assert_eq!(t.cancel(2), (true, false));
    assert_eq!(t.cancel(1), (false, true));
    assert_eq!(t.cancel(9), (false, false));
    t.finish();
    assert_eq!(t.pump().unwrap().log_id, 3);
}

#[test]
fn log_is_capped_and_finishes_once() {
    let mut log = TaskLog::from_entries(Vec::new());
    for id in 0..(MAX_ENTRIES as u64 + 5) {
        log.push(log_entry(id, 0));
    }
    assert_eq!(log.entries().len(), MAX_ENTRIES);
    assert_eq!(log.entries()[0].id, MAX_ENTRIES as u64 + 4);
    assert!(!log.progress(0, 1, 2));
    assert!(log.progress(100, 1, 2) && log.retried(100));
    assert!(log.finish(100, true, "", 9));
    assert!(!log.finish(100, false, "late", 10) && !log.retried(100) && !log.progress(100, 2, 2));
    let e = log.entries().iter().find(|e| e.id == 100).unwrap();
    assert_eq!((e.done, e.total, e.retries, e.end_ts, e.success), (1, 2, 1, 9, true));
    assert_eq!(e.error, "");
}

#[test]
fn daemon_runs_cancels_and_finishes() {
    let mut d = daemon();
    let a = d.spawn_update_kind("bing", "Updating Bing".into(), true, true, 50);
    let b = d.spawn_update_kind("nasa", "Updating NASA".into(), false, false, 60);
    assert_eq!((a, b), (1, 2));
    assert_eq!(d.config.last_updated_at("bing"), 50);
    let running = d.pump().unwrap();
    assert!(running.log_id == 1 && running.scheduled);
    assert_eq!(d.cancel_task(2, "cancelled", 61), Cancelled { queued: true, running: false });
    assert_eq!(d.task_log.entries()[0].error, "cancelled");
    assert_eq!(d.cancel_task(1, "cancelled", 62), Cancelled { queued: false, running: true });
    assert!(d.is_cancelled(1) && !d.is_cancelled(2));
    assert!(d.finish_task(1, Err("boom".into()), 63));
    assert!(!d.is_cancelled(1));
    assert_eq!(d.last_error, "boom");
    assert_eq!(d.task_log.entries()[1].kind, "scheduled");
    assert!(d.pump().is_none());
    assert!(!d.record_apply("Apply".into(), Ok(()), 64));
    assert!(d.record_apply("Apply".into(), Err("no".into()), 65));
    assert_eq!(d.last_error, "no");
    assert_eq!(d.task_log.entries()[0].kind, "apply");
    assert_eq!(d.next_task_id, 5);
    assert_eq!(update_label("Updating", "Bing"), "Updating Bing");
    assert_eq!(name_of("picsum"), "Lorem Picsum");
    assert_eq!(name_of("gone"), "gone");
}

#[test]
fn updates_are_asked_once_and_picks_stay() {
    let mut d = daemon();
    d.config.set_update_enabled("bing", true);
    assert_eq!(tick(&d.config.source_settings_map(), 10_000, 0).len(), 1);
    d.spawn_update_kind("bing", "A".into(), true, true, 10_000);
    assert!(tick(&d.config.source_settings_map(), 13_599, 0).is_empty());
    assert_eq!(tick(&d.config.source_settings_map(), 13_600, 0).len(), 1);
    d.set_wallpaper_source("bing", "latest", true);
    assert_eq!(d.after_update("bing"), Pick::Latest);
    d.follow_pick("bing");
    assert_eq!(d.after_update("bing"), Pick::Keep);
    assert_eq!(d.after_update("nasa"), Pick::Keep);
}

#[test]
fn missed_windows_are_recorded() {
    let mut d = daemon();
    d.config.set_update_enabled("bing", true);
    d.config.set_last_updated_at("bing", 10);
    let map = d.config.source_settings_map();
    d.report_missed_windows(&map, "Missed", 10_000);
    assert_eq!(d.task_log.entries().len(), 1);
    let e = &d.task_log.entries()[0];
    assert_eq!(e.label, "Missed · bing");
    assert_eq!((e.kind.as_str(), e.catchup, e.end_ts), ("skipped", true, 10_000));
    assert_eq!(d.next_task_id, 2);
}

// --------------------------------------------------------------- apply

fn image_meta() -> ImageMeta {
    ImageMeta {
        source: "nasa".into(),
        title: "T".into(),
        copyright: Some("C".into()),
        url: String::new(),
        downloaded_at: 0,
        hash: String::new(),
        date: String::new(),
        width: 0,
        height: 0,
        extra: TextMap::new(),
    }
}

#[test]
fn applied_images_are_remembered() {
    let mut d = daemon();
    assert_eq!(d.check_image("/a.jpg", false), ApplyCheck::Missing);
    assert_eq!(d.check_image("/a.jpg", true), ApplyCheck::Apply);
    assert!(d.capture_original(Some("/own.jpg")));
    assert!(!d.capture_original(Some("/other.jpg")));
    d.note_applied("/a.jpg", Some(&image_meta()), 1);
    // An image counts as applied once the history is saved.
    assert_eq!(d.applied_saved("/a.jpg", Err("disk full".into())).unwrap_err(), "disk full");
    assert_eq!(d.check_image("/a.jpg", true), ApplyCheck::Apply);
    assert!(d.applied_saved("/a.jpg", Ok(())).is_ok());
    assert_eq!(d.check_image("/a.jpg", true), ApplyCheck::Unchanged);
    d.note_applied("/dir/b.jpg", None, 2);
    assert!(d.applied_saved("/dir/b.jpg", Ok(())).is_ok());
    assert_eq!(d.check_image("/a.jpg", true), ApplyCheck::Apply);
    assert_eq!(d.history.entries()[0].title, "b");
    assert_eq!(d.history.entries()[1].copyright.as_deref(), Some("C"));
    assert_eq!(d.pick_previous().as_deref(), Some("/a.jpg"));
    assert_eq!(d.history.entries()[0].file, "/a.jpg");
    assert_eq!(d.previous_saved("/a.jpg".into(), Ok(())).unwrap(), "/a.jpg");
    assert_eq!(d.previous_saved("/a.jpg".into(), Err("full".into())).unwrap_err(), "full");
    assert_eq!(d.original().as_deref(), Some("/own.jpg"));
    d.note_restored("/own.jpg");
    assert_eq!(d.check_image("/own.jpg", true), ApplyCheck::Unchanged);
    let mut fresh = daemon();
    assert!(fresh.pick_previous().is_none() && fresh.original().is_none());
}

#[test]
fn manual_mode_goes_back_to_the_last_pick() {
    let mut d = daemon();
    assert_eq!(d.manual_pick("nasa", true), None);
    d.note_applied("/a.jpg", Some(&image_meta()), 1);
    d.note_applied("/b.jpg", Some(&image_meta()), 2);
    d.note_applied("/c.jpg", None, 3);
    assert_eq!(d.manual_pick("nasa", true).as_deref(), Some("/b.jpg"));
    assert_eq!(d.manual_pick("nasa", false), None);
    assert_eq!(d.manual_pick("bing", true), None);
}

#[test]
fn rules_follow_source_and_mode() {
    let mut d = daemon();
    assert!(d.rule().is_none());
    assert_eq!(d.set_wallpaper_source("bing", "random", true), Switch::ApplyRule);
    assert_eq!(d.rule(), Some(("bing".to_string(), Pick::Random)));
    assert_eq!(d.set_wallpaper_source("nasa", "manual", true), Switch::ApplyPick);
    assert_eq!(d.after_update("nasa"), Pick::Keep);
    assert_eq!(d.after_update("bing"), Pick::Keep);
    assert_eq!(d.set_wallpaper_source("picsum", "latest", false), Switch::RememberOnly);
    assert_eq!(d.after_update("picsum"), Pick::Latest);
    // The mode is remembered per source.
    assert_eq!(d.config.source_mode("bing"), "random");
    assert_eq!(d.set_wallpaper_source("", "latest", true), Switch::Restore);
    assert_eq!(d.config.wallpaper_source(), "");
    d.follow_pick("");
    assert_eq!(d.config.wallpaper_source(), "");
    d.follow_pick("bing");
    assert_eq!(d.rule(), Some(("bing".to_string(), Pick::Keep)));
}

// ------------------------------------------------------------- service

#[test]
fn requests_are_answered() {
    let mut d = daemon();
    d.set_wallpaper_source("bing", "random", false);
    d.note_applied("/a.jpg", None, 3);
    d.last_error = "e".into();
    match handle_method(&mut d, "GetStatus", &params("", "", -1), "Unknown") {
        (Reply::Status { source, mode, file }, Action::Nothing) => {
            assert_eq!((source.as_str(), mode.as_str(), file.as_str()), ("bing", "random", "/a.jpg"))
        }
        _ => panic!("status"),
    }
    assert!(matches!(
        handle_method(&mut d, "GetLastError", &params("", "", -1), "Unknown"),
        (Reply::Message(m), Action::Nothing) if m == "e"
    ));
    assert!(matches!(
        handle_method(&mut d, "FetchNow", &params("nasa", "", -1), "Unknown"),
        (Reply::Done, Action::Update(s)) if s == "nasa"
    ));
    assert!(matches!(
        handle_method(&mut d, "FetchNow", &params("x", "", -1), "Unknown"),
        (Reply::UnknownSource(m), Action::Nothing) if m == "Unknown: x"
    ));
    assert!(matches!(
        handle_method(&mut d, "SetWallpaperSource", &params("", "latest", -1), "Unknown"),
        (Reply::Done, Action::SetSource(s, m)) if s.is_empty() && m == "latest"
    ));
    assert!(matches!(
        handle_method(&mut d, "SetWallpaperSource", &params("x", "", -1), "Unknown"),
        (Reply::UnknownSource(_), Action::Nothing)
    ));
    for name in ["ApplyWallpaper", "Next", "ApplyNow"] {
        assert!(matches!(
            handle_method(&mut d, name, &params("", "", -1), ""),
            (Reply::Done, Action::ApplyRule)
        ));
    }
    assert!(matches!(
        handle_method(&mut d, "ApplyFile", &params("/f", "", -1), ""),
        (Reply::Done, Action::ApplyFile(p)) if p == "/f"
    ));
    assert!(matches!(
        handle_method(&mut d, "CancelTask", &params("", "", 4), ""),
        (Reply::Done, Action::Cancel(4))
    ));
    assert!(matches!(
        handle_method(&mut d, "CancelTask", &params("", "", -1), ""),
        (Reply::Done, Action::Nothing)
    ));
    assert!(matches!(
        handle_method(&mut d, "GetSourceImages", &params("x", "", -1), ""),
        (Reply::Images(s), Action::Nothing) if s == "x"
    ));
    assert!(matches!(
        handle_method(&mut d, "GetHistory", &params("", "", -1), ""),
        (Reply::History(rows), Action::Nothing) if rows.len() == 1 && rows[0].0 == "/a.jpg"
    ));
    assert!(matches!(
        handle_method(&mut d, "GetTaskLog", &params("", "", -1), ""),
        (Reply::TaskLog(rows), Action::Nothing) if rows.is_empty()
    ));
    assert!(matches!(
        handle_method(&mut d, "Nope", &params("", "", -1), ""),
        (Reply::UnknownMethod, Action::Nothing)
    ));
    assert!(matches!(
        handle_method(&mut d, "HistoryRemove", &params("", "", 5), ""),
        (Reply::Done, Action::Nothing)
    ));
    assert!(matches!(
        handle_method(&mut d, "ClearHistory", &params("", "", -1), ""),
        (Reply::Done, Action::ClearHistory)
    ));
    assert!(!d.history.is_empty());
    assert!(matches!(
        handle_method(&mut d, "HistoryRemove", &params("", "", 0), ""),
        (Reply::Done, Action::SaveHistory)
    ));
    assert!(d.history.is_empty());
    assert_eq!(Method::parse("Previous"), Some(Method::Previous));
}

#[test]
fn tasks_and_schedule_are_listed() {
    let mut d = daemon();
    d.spawn_update_kind("bing", "A".into(), true, false, 1_000);
    d.spawn_update_kind("nasa", "B".into(), false, false, 1_000);
    d.pump();
    d.task_log.progress(1, 1, 3);
    let rows = match handle_method(&mut d, "GetTasks", &params("", "", -1), "") {
        (Reply::Tasks(rows), Action::Nothing) => rows,
        _ => panic!("tasks"),
    };
    assert_eq!(rows.len(), 2);
    assert!(rows[0].running && !rows[1].running);
    assert_eq!((rows[0].id, rows[0].done, rows[0].total), (1, 1, 3));
    assert_eq!(rows[1].label, "B");
    let plan = match handle_method(&mut d, "GetSchedule", &params("", "", -1), "") {
        (Reply::Schedule(rows), Action::Nothing) => rows,
        _ => panic!("schedule"),
    };
    assert_eq!(plan.len(), 7);
    assert_eq!((plan[0].source, plan[0].last, plan[0].next_due), ("bing", 1_000, 4_600));
    assert_eq!(plan[3].next_due, 3600);
    let log = log_rows(d.task_log.entries());
    assert_eq!((log[1].label.as_str(), log[1].finished, log[1].done), ("A", false, 1));
}

#[test]
fn rows_carry_entries() {
    let images = vec![StoredImage {
        path: "/p.jpg".into(),
        json_path: "/p.json".into(),
        meta: image_meta(),
        reused: false,
    }];
    assert_eq!(
        image_rows(&images),
        vec![("/p.jpg".to_string(), "T".to_string(), "nasa".to_string(), 0)]
    );
    let entries = vec![HistoryEntry {
        file: "f".into(),
        source: "s".into(),
        title: "t".into(),
        copyright: None,
        applied_at: 4,
    }];
    let rows = history_rows(&entries);
    assert_eq!(rows[0].3, "");
    let back = entry_from_row(rows.into_iter().next().unwrap());
    assert_eq!((back.file.as_str(), back.copyright, back.applied_at), ("f", None, 4));
}

// -------------------------------------------------------------- helper

#[test]
fn helper_arguments_read_back() {
    let date = Date { year: 2026, month: 8, day: 3 };
    let args = helper_arguments("bing", 7, date);
    assert_eq!(args, vec!["bing", "7", "2026-08-03"]);
    let job = parse_arguments(&args).unwrap();
    assert_eq!((job.source.as_str(), job.index, job.date), ("bing", 7, date));
    let bad = |a: &[&str]| {
        parse_arguments(&a.iter().map(|s| s.to_string()).collect()).unwrap_err()
    };
    assert_eq!(bad(&[]), BadArguments::NoSource);
    assert_eq!(bad(&["bing"]), BadArguments::BadIndex);
    assert_eq!(bad(&["bing", "x"]), BadArguments::BadIndex);
    assert_eq!(bad(&["bing", "9223372036854775808", "2026-08-03"]), BadArguments::BadIndex);
    assert_eq!(bad(&["bing", "+3", "2026-13-03"]), BadArguments::BadDate);
    assert_eq!(bad(&["bing", "-9223372036854775808"]), BadArguments::BadDate);
    assert_eq!(BadArguments::BadIndex.message(), "fetch-once: invalid index");
}

#[test]
fn helper_reports_read_back() {
    for reused in [true, false] {
        let out = format!("log\n{}\n", stored_line("/p q.jpg", reused));
        let image = read_report("bing", &out, "", Some(0)).unwrap();
        assert_eq!((image.path.as_str(), image.reused), ("/p q.jpg", reused));
        assert_eq!(image.json_path, "/p q.json");
        assert_eq!(image.meta.source, "bing");
    }
    let err = |out: &str, err: &str, code| read_report("s", out, err, code).unwrap_err();
    assert_eq!(err("", &format!("x\n{}\n", error_line("boom: a")), Some(1)), "boom: a");
    assert_eq!(err("", "FETCHERR\tFETCHERR\tx", Some(1)), "x");
    assert_eq!(err("STORED\t\t1", "", Some(3)), "fetch helper exited with status 3");
    assert_eq!(err("STORED\t", "FETCHERR\t", None), "fetch helper exited with status signal");
}

#[test]
fn supervisor_restarts_crashes_only() {
    assert!(restarts(false, false));
    assert!(!restarts(false, true) && !restarts(true, false) && !restarts(true, true));
    assert_eq!(
        daemon_command(Some("/b/equinox-daemon"), Some("app")),
        ("/b/equinox-daemon".to_string(), Vec::<String>::new())
    );
    assert_eq!(
        daemon_command(None, Some("app")),
        (
            "flatpak".to_string(),
            vec!["run".to_string(), "--command=equinox-daemon".to_string(), "app".to_string()]
        )
    );
    assert_eq!(daemon_command(None, Some("")).0, "equinox-daemon");
}
