use event_schedule::{
    check_keys, compile, duration_minutes, group_by_time, load_event, load_event_text, load_meta,
    next_day, occurrences, parse_document, recurrence_of, resolve, time_of_day_minutes,
    weekday_of, Date, DateSet, DocDatetime, DocValue, Entry, Event, LoadError, LocalTime,
    SchemaProblem, Time, TimeError,
};

fn date(year: u16, month: u8, day: u8) -> Date {
    Date { year, month, day }
}

fn load(text: &str) -> Event {
    match load_event_text(text) {
        Ok(e) => e,
        Err(e) => panic!("failed to load: {:?}", e),
    }
}

fn schema_key(r: Result<Event, LoadError>) -> (String, SchemaProblem) {
    match r {
        Err(LoadError::Schema { key, problem }) => (key, problem),
        Err(e) => panic!("unexpected error {:?}", e),
        Ok(_) => panic!("unexpectedly loaded"),
    }
}

const JANUARY: &str = r#"
name = "Meetup"
start_date = 2024-01-01
end_date = 2024-01-31
timezone = "Asia/Tokyo"
start = "19:00"
duration = 90
canceled = [2024-01-08]
"#;

fn mondays(event: &Event, from: Date, count: u32) -> Vec<Date> {
    let rec = recurrence_of(event);
    rec.expand(from, count)
        .into_iter()
        .filter(|d| weekday_of(*d) == 1)
        .collect()
}

#[test]
fn january_mondays_skip_canceled_date() {
    let event = load(JANUARY);
    let got = mondays(&event, date(2024, 1, 1), 31);
    assert_eq!(got, vec![date(2024, 1, 1), date(2024, 1, 15), date(2024, 1, 22), date(2024, 1, 29)]);
    let occ = occurrences(&event, 0, None, date(2024, 1, 1), 31);
    let monday: Vec<_> = occ.iter().filter(|o| o.day == 1).collect();
    assert_eq!(monday.len(), 4);
    for o in monday {
        assert_eq!(o.start, Time(1140));
        assert_eq!(o.duration, Time(90));
        assert_eq!(o.name, "Meetup");
    }
}

#[test]
fn horizon_is_cut_by_date_range() {
    let event = load(JANUARY);
    let all = recurrence_of(&event).expand(date(2023, 12, 1), 100);
    assert_eq!(all.first(), Some(&date(2024, 1, 1)));
    assert_eq!(all.last(), Some(&date(2024, 1, 31)));
    // 31 days, one of them canceled
    assert_eq!(all.len(), 30);
}

#[test]
fn start_past_midnight_is_rejected() {
    let r = time_of_day_minutes(&DocValue::Str("25:00".to_string()));
    assert_eq!(r, Err(TimeError::PastMidnight));
    assert_eq!(TimeError::PastMidnight.message(), "Time must be less than 24:00");
    let doc = JANUARY.replace("\"19:00\"", "\"25:00\"");
    match load_event_text(&doc) {
        Err(LoadError::TimeFormat { key, error }) => {
            assert_eq!(key, "start");
            assert!(error.message().contains("Time must be less than 24:00"));
        }
        other => panic!("unexpected {:?}", other.map(|_| ())),
    }
}

#[test]
fn unknown_top_level_key_is_rejected() {
    let doc = format!("{}\nnmae = \"x\"\n", JANUARY);
    let (key, problem) = schema_key(load_event_text(&doc));
    assert_eq!(key, "nmae");
    assert_eq!(problem, SchemaProblem::UnknownField);
}

#[test]
fn unknown_nested_key_is_rejected() {
    let doc = format!("{}\n[days.monday]\ndescriptoin = \"x\"\n", JANUARY);
    let (key, problem) = schema_key(load_event_text(&doc));
    assert_eq!(key, "descriptoin");
    assert_eq!(problem, SchemaProblem::UnknownField);
    let doc = format!("{}\n[languages.en]\ntitel = \"x\"\n", JANUARY);
    let (key, _) = schema_key(load_event_text(&doc));
    assert_eq!(key, "titel");
    let doc = format!("{}\n[[join]]\nname = \"a\"\nid = \"b\"\nextra = 1\n", JANUARY);
    let (key, _) = schema_key(load_event_text(&doc));
    assert_eq!(key, "extra");
    let doc = format!("{}\n[days]\nmonnday = {{}}\n", JANUARY);
    let (key, _) = schema_key(load_event_text(&doc));
    assert_eq!(key, "monnday");
}

#[test]
fn first_week_filter_keeps_first_monday() {
    let doc = r#"
timezone = "UTC"
start = "20:00"
duration = 60
weeks = [1]
[days]
monday = {}
"#;
    let event = load(doc);
    // January 2024 has five Mondays: 1, 8, 15, 22, 29.
    let got = recurrence_of(&event).expand(date(2024, 1, 1), 31);
    assert_eq!(got, vec![date(2024, 1, 1)]);
}

#[test]
fn canceled_wins_over_confirmed() {
    let doc = r#"
timezone = "UTC"
start = "20:00"
duration = 60
confirmed = [2024-01-08, 2024-01-15]
canceled = [2024-01-08]
"#;
    let event = load(doc);
    let got = recurrence_of(&event).expand(date(2024, 1, 1), 31);
    assert_eq!(got, vec![date(2024, 1, 15)]);
    let occ = occurrences(&event, 3, None, date(2024, 1, 1), 31);
    assert_eq!(occ.len(), 1);
    assert!(occ[0].confirmed);
    assert_eq!(occ[0].id, 3);
}

#[test]
fn confirmed_does_not_widen_the_pattern() {
    let doc = r#"
timezone = "UTC"
start = "20:00"
duration = 60
start_date = 2024-01-10
confirmed = [2024-01-08, 2024-01-09, 2024-01-12]
[days]
friday = {}
tuesday = {}
"#;
    let event = load(doc);
    // the 8th is before the range, the 9th is a Tuesday outside it, the 12th a Friday within
    let got = recurrence_of(&event).expand(date(2024, 1, 1), 31);
    assert_eq!(got, vec![date(2024, 1, 12)]);
}

#[test]
fn no_confirmed_dates_gives_nothing() {
    let doc = "timezone = \"UTC\"\nstart = 0\nduration = 0\nconfirmed = false\n";
    let event = load(doc);
    assert!(recurrence_of(&event).expand(date(2024, 1, 1), 366).is_empty());
    let doc = "timezone = \"UTC\"\nstart = 0\nduration = 0\ncanceled = true\n";
    let event = load(doc);
    assert!(recurrence_of(&event).expand(date(2024, 1, 1), 366).is_empty());
}

#[test]
fn no_overrides_resolve_identically() {
    let event = load(JANUARY);
    let en = "en".to_string();
    for wd in 0..7u64 {
        for lang in [None, Some(&en)] {
            let r = resolve(&event, wd, lang).unwrap();
            assert_eq!(r.info.name.as_deref(), Some("Meetup"));
            assert_eq!(r.start, Time(1140));
            assert_eq!(r.duration, Time(90));
        }
    }
}

#[test]
fn resolution_is_repeatable() {
    let doc = format!("{}\n[days.friday]\nname = \"Friday\"\nstart = \"21:30\"\n", JANUARY);
    let event = load(&doc);
    let a = resolve(&event, 5, None).unwrap();
    let b = resolve(&event, 5, None).unwrap();
    assert_eq!(format!("{:?}", a), format!("{:?}", b));
    assert_eq!(a.start, Time(1290));
}

#[test]
fn override_precedence() {
    let doc = r#"
name = "Base"
description = "base text"
web = "https://example.org"
timezone = "UTC"
start = "10:00"
duration = 30
weeks = [1, 2]
[[join]]
name = "Host"
id = "h1"
[days.monday]
name = "Monday name"
start = "11:00"
duration = 45
[[days.monday.join]]
name = "Monday host"
id = "h2"
[days.tuesday]
[languages.ja]
description = "ja text"
[languages.ja.monday]
name = "ja Monday"
"#;
    let event = load(doc);
    let ja = "ja".to_string();
    let mon_ja = resolve(&event, 1, Some(&ja)).unwrap();
    assert_eq!(mon_ja.info.name.as_deref(), Some("ja Monday"));
    assert_eq!(mon_ja.info.description.as_deref(), Some("ja text"));
    assert_eq!(mon_ja.info.web.as_deref(), Some("https://example.org"));
    let join = mon_ja.info.join.unwrap();
    assert_eq!(join.len(), 1);
    assert_eq!(join[0].id, "h2");
    assert_eq!(mon_ja.info.weeks, Some(vec![1, 2]));
    assert_eq!(mon_ja.start, Time(660));
    assert_eq!(mon_ja.duration, Time(45));
    let tue_ja = resolve(&event, 2, Some(&ja)).unwrap();
    assert_eq!(tue_ja.info.name.as_deref(), Some("Base"));
    assert_eq!(tue_ja.info.description.as_deref(), Some("ja text"));
    assert_eq!(tue_ja.info.join.unwrap()[0].id, "h1");
    assert_eq!(tue_ja.start, Time(600));
    let mon = resolve(&event, 1, None).unwrap();
    assert_eq!(mon.info.name.as_deref(), Some("Monday name"));
    assert_eq!(mon.info.description.as_deref(), Some("base text"));
    // only Monday and Tuesday are enabled
    let rec = recurrence_of(&event);
    assert_eq!(rec.enabled, vec![false, true, true, false, false, false, false]);
}

#[test]
fn weekday_out_of_range_is_rejected() {
    let event = load(JANUARY);
    assert_eq!(resolve(&event, 7, None).unwrap_err().0, 7);
}

#[test]
fn end_before_start_is_rejected() {
    let doc = "timezone = \"UTC\"\nstart = 0\nduration = 0\nstart_date = 2024-02-01\nend_date = 2024-01-31\n";
    assert!(matches!(load_event_text(doc), Err(LoadError::DateOrder)));
}

#[test]
fn missing_and_mistyped_fields() {
    let (key, problem) = schema_key(load_event_text("start = 0\nduration = 0\n"));
    assert_eq!((key.as_str(), problem), ("timezone", SchemaProblem::MissingField));
    let (key, problem) = schema_key(load_event_text("timezone = 5\nstart = 0\nduration = 0\n"));
    assert_eq!((key.as_str(), problem), ("timezone", SchemaProblem::WrongType));
    let (key, problem) = schema_key(load_event_text("timezone = \"UTC\"\nstart = 0\n"));
    assert_eq!((key.as_str(), problem), ("duration", SchemaProblem::MissingField));
    let (key, _) = schema_key(load_event_text("timezone = \"UTC\"\nstart = 0\nduration = 0\nplatforms = [\"phone\"]\n"));
    assert_eq!(key, "platforms");
    assert!(matches!(load_event_text("timezone = "), Err(LoadError::Syntax)));
}

#[test]
fn defaults_apply() {
    let event = load("timezone = \"UTC\"\nstart = 0\nduration = 0\n");
    assert_eq!(event.platforms, vec![event_schedule::Platform::Pc]);
    assert!(matches!(event.confirmed, DateSet::All(true)));
    assert!(matches!(event.canceled, DateSet::All(false)));
    assert!(event.days.monday.is_some() && event.days.sunday.is_some());
    assert_eq!(recurrence_of(&event).expand(date(2024, 1, 1), 14).len(), 14);
}

#[test]
fn date_set_constructors() {
    assert!(matches!(DateSet::all(), DateSet::All(true)));
    assert!(matches!(DateSet::none(), DateSet::All(false)));
    assert!(DateSet::all().contains(date(2024, 5, 5)));
    assert!(!DateSet::none().contains(date(2024, 5, 5)));
    assert!(DateSet::Dates(vec![date(2024, 5, 5)]).contains(date(2024, 5, 5)));
}

fn local(hour: u8, minute: u8, second: u8) -> DocValue {
    DocValue::Datetime(DocDatetime {
        date: None,
        time: Some(LocalTime { hour, minute, second, nanosecond: 0 }),
        has_offset: false,
    })
}

#[test]
fn time_notations() {
    assert_eq!(duration_minutes(&DocValue::Str("1:30".to_string())), Ok(Time(90)));
    assert_eq!(duration_minutes(&DocValue::Str("30:00".to_string())), Ok(Time(1800)));
    assert_eq!(duration_minutes(&DocValue::Str("+5".to_string())), Ok(Time(5)));
    assert_eq!(duration_minutes(&DocValue::Str("45".to_string())), Ok(Time(45)));
    assert_eq!(duration_minutes(&DocValue::Str("1:x".to_string())), Err(TimeError::Unparsable));
    assert_eq!(duration_minutes(&DocValue::Str("".to_string())), Err(TimeError::Unparsable));
    assert_eq!(duration_minutes(&DocValue::Str("70000".to_string())), Err(TimeError::Unparsable));
    assert_eq!(duration_minutes(&DocValue::Int(90)), Ok(Time(90)));
    assert_eq!(duration_minutes(&DocValue::Int(-1)), Err(TimeError::OutOfRange));
    assert_eq!(duration_minutes(&DocValue::Bool(true)), Err(TimeError::Unparsable));
    assert_eq!(time_of_day_minutes(&local(19, 0, 0)), Ok(Time(1140)));
    assert_eq!(time_of_day_minutes(&local(19, 0, 5)), Err(TimeError::NotWholeMinutes));
    assert_eq!(time_of_day_minutes(&DocValue::Str("23:59".to_string())), Ok(Time(1439)));
    assert_eq!(time_of_day_minutes(&DocValue::Str("24:00".to_string())), Err(TimeError::PastMidnight));
    let dated = DocValue::Datetime(DocDatetime {
        date: Some(date(2024, 1, 1)),
        time: Some(LocalTime { hour: 1, minute: 0, second: 0, nanosecond: 0 }),
        has_offset: false,
    });
    assert_eq!(duration_minutes(&dated), Err(TimeError::HasDate));
    let offset = DocValue::Datetime(DocDatetime {
        date: None,
        time: Some(LocalTime { hour: 1, minute: 0, second: 0, nanosecond: 0 }),
        has_offset: true,
    });
    assert_eq!(duration_minutes(&offset), Err(TimeError::HasOffset));
}

#[test]
fn toml_local_time_is_read() {
    let event = load("timezone = \"UTC\"\nstart = 07:30:00\nduration = 01:00:00\n");
    assert_eq!(event.start, Time(450));
    assert_eq!(event.duration, Time(60));
    let doc = "timezone = \"UTC\"\nstart = 07:30:10\nduration = 0\n";
    assert!(matches!(load_event_text(doc), Err(LoadError::TimeFormat { error: TimeError::NotWholeMinutes, .. })));
}

#[test]
fn weekdays_from_calendar() {
    assert_eq!(weekday_of(date(2024, 1, 1)), 1);
    assert_eq!(weekday_of(date(1970, 1, 1)), 4);
    assert_eq!(weekday_of(date(2000, 2, 29)), 2);
    assert_eq!(weekday_of(date(2024, 3, 31)), 0);
}

#[test]
fn following_days() {
    assert_eq!(next_day(date(2024, 2, 28)), Some(date(2024, 2, 29)));
    assert_eq!(next_day(date(2023, 2, 28)), Some(date(2023, 3, 1)));
    assert_eq!(next_day(date(2024, 12, 31)), Some(date(2025, 1, 1)));
    assert_eq!(next_day(date(9999, 12, 31)), None);
}

#[test]
fn parsed_document_tree() {
    let doc = parse_document("a = 1\n[b]\nc = \"x\"\n").unwrap();
    match doc {
        DocValue::Table(entries) => {
            assert_eq!(entries.len(), 2);
            let a = entries.iter().find(|e| e.key == "a").unwrap();
            assert!(matches!(a.value, DocValue::Int(1)));
        }
        _ => panic!("not a table"),
    }
    assert!(parse_document("= nope").is_none());
}

#[test]
fn key_check_names_offender() {
    let t = vec![
        Entry { key: "a".to_string(), value: DocValue::Int(1) },
        Entry { key: "z".to_string(), value: DocValue::Int(2) },
    ];
    match check_keys(&t, &["a", "b"]) {
        Err(LoadError::Schema { key, problem }) => {
            assert_eq!(key, "z");
            assert_eq!(problem, SchemaProblem::UnknownField);
        }
        _ => panic!("expected an error"),
    }
    let dup = vec![
        Entry { key: "a".to_string(), value: DocValue::Int(1) },
        Entry { key: "a".to_string(), value: DocValue::Int(2) },
    ];
    assert!(matches!(check_keys(&dup, &["a"]), Err(LoadError::Schema { problem: SchemaProblem::DuplicateField, .. })));
    let table = DocValue::Table(dup);
    assert!(load_event(&table).is_err());
}

#[test]
fn slots_group_by_start_time() {
    let doc = format!("{}\n[days.monday]\n[days.friday]\nstart = \"08:00\"\n", JANUARY);
    let event = load(&doc);
    let occ = occurrences(&event, 1, None, date(2024, 1, 1), 7);
    let slots = group_by_time(&occ);
    assert_eq!(slots.len(), 2);
    assert_eq!(slots[0].time, Time(480));
    assert_eq!(slots[1].time, Time(1140));
    assert_eq!(slots[0].days[5].len(), 1);
    assert_eq!(occ[slots[0].days[5][0]].date, date(2024, 1, 5));
    assert_eq!(slots[1].days[1].len(), 1);
    assert!(slots[1].days[5].is_empty());
    for o in &occ {
        assert!(o.start.0 < 1440);
    }
}

#[test]
fn compile_isolates_failures() {
    let texts = vec![
        JANUARY.to_string(),
        "broken = ".to_string(),
        format!("{}\nunknown = 1\n", JANUARY),
        JANUARY.replace("Meetup", "Other"),
    ];
    let out = compile(&texts, None, date(2024, 1, 1), 7);
    let failed: Vec<usize> = out.failures.iter().map(|f| f.index).collect();
    assert_eq!(failed, vec![1, 2]);
    assert!(matches!(out.failures[0].error, LoadError::Syntax));
    assert!(out.occurrences.iter().all(|o| o.id == 0 || o.id == 3));
    assert_eq!(out.occurrences.len(), 14);
    assert_eq!(out.slots.len(), 1);
}

#[test]
fn meta_document() {
    let doc = parse_document("title = \"Calendar\"\n[languages.en]\ntitle = \"Calendar (en)\"\n").unwrap();
    let meta = load_meta(&doc).unwrap();
    assert_eq!(meta.title, "Calendar");
    assert_eq!(meta.languages.len(), 1);
    assert_eq!(meta.languages[0].tag, "en");
    assert_eq!(meta.languages[0].meta.title.as_deref(), Some("Calendar (en)"));
    let bad = parse_document("title = \"x\"\nsubtitle = \"y\"\n").unwrap();
    assert!(load_meta(&bad).is_err());
}

#[test]
fn language_display_name() {
    let doc = format!("{}\n[languages.en]\nname = \"Meetup (en)\"\n", JANUARY);
    let event = load(&doc);
    let en = "en".to_string();
    let occ = occurrences(&event, 0, Some(&en), date(2024, 1, 1), 1);
    assert_eq!(occ[0].name, "Meetup (en)");
    assert_eq!(occ[0].base_name, "Meetup");
}

#[test]
fn load_all_splits_loaded_and_failed() {
    let texts = vec!["nope = ".to_string(), JANUARY.to_string()];
    let (loaded, failed) = event_schedule::load_all(&texts);
    assert_eq!(loaded.len(), 1);
    assert_eq!(loaded[0].index, 1);
    assert_eq!(failed.len(), 1);
    assert_eq!(failed[0].index, 0);
    let occ = event_schedule::timetable(&loaded, None, date(2024, 1, 1), 3);
    assert_eq!(occ.len(), 3);
    assert!(occ.iter().all(|o| o.id == 1));
}

#[test]
fn duplicate_confirmed_dates_give_one_occurrence() {
    let doc = "timezone = \"UTC\"\nstart = 0\nduration = 0\nconfirmed = [2024-01-03, 2024-01-03]\n";
    let event = load(doc);
    assert_eq!(recurrence_of(&event).expand(date(2024, 1, 1), 10), vec![date(2024, 1, 3)]);
}

#[test]
fn week_starting_monday() {
    assert_eq!(event_schedule::week_order(1), vec![1, 2, 3, 4, 5, 6, 0]);
    assert_eq!(event_schedule::week_order(0), vec![0, 1, 2, 3, 4, 5, 6]);
}

#[test]
fn time_error_texts() {
    assert_eq!(TimeError::HasDate.message(), "Time should not have a date");
    assert_eq!(TimeError::HasOffset.message(), "Time should not have an offset");
    assert_eq!(TimeError::NotWholeMinutes.message(), "Time must contain whole minutes");
    assert_eq!(TimeError::NoTime.message(), "Time must contain a time");
}

#[test]
fn date_lists_load_as_written() {
    let doc = "timezone = \"UTC\"\nstart = 0\nduration = 0\nconfirmed = [2024-01-08, 2024-01-08]\ncanceled = []\n";
    let event = load(doc);
    match &event.confirmed {
        DateSet::Dates(v) => assert_eq!(v, &vec![date(2024, 1, 8), date(2024, 1, 8)]),
        _ => panic!("expected a list"),
    }
    match &event.canceled {
        DateSet::Dates(v) => assert!(v.is_empty()),
        _ => panic!("expected a list"),
    }
    assert_eq!(recurrence_of(&event).expand(date(2024, 1, 1), 31), vec![date(2024, 1, 8)]);
    let none = load("timezone = \"UTC\"\nstart = 0\nduration = 0\nconfirmed = []\n");
    assert!(matches!(&none.confirmed, DateSet::Dates(v) if v.is_empty()));
    assert!(recurrence_of(&none).expand(date(2024, 1, 1), 31).is_empty());
    assert!(load("timezone = \"UTC\"\nstart = 0\nduration = 0\n").languages.is_empty());
}

#[test]
fn errors_name_their_key() {
    let base = "timezone = \"UTC\"\nstart = 0\nduration = 0\n";
    let (key, problem) = schema_key(load_event_text(&format!("{}name = 5\n", base)));
    assert_eq!((key.as_str(), problem), ("name", SchemaProblem::WrongType));
    let (key, problem) = schema_key(load_event_text(&format!("{}platforms = \"pc\"\n", base)));
    assert_eq!((key.as_str(), problem), ("platforms", SchemaProblem::WrongType));
    let (key, problem) = schema_key(load_event_text(&format!("{}weeks = \"1\"\n", base)));
    assert_eq!((key.as_str(), problem), ("weeks", SchemaProblem::WrongType));
    let (key, problem) = schema_key(load_event_text(&format!("{}[languages.ja.monday]\nnaem = \"x\"\n", base)));
    assert_eq!((key.as_str(), problem), ("naem", SchemaProblem::UnknownField));
    let (key, problem) = schema_key(load_event_text(&format!("{}[world]\nname = \"w\"\nid = \"i\"\nurl = \"u\"\n", base)));
    assert_eq!((key.as_str(), problem), ("url", SchemaProblem::UnknownField));
}

#[test]
fn start_past_midnight_in_a_slot_fails_but_long_duration_loads() {
    let base = "timezone = \"UTC\"\nstart = 0\nduration = \"25:00\"\n";
    assert_eq!(load(base).duration, Time(1500));
    match load_event_text(&format!("{}[days.monday]\nstart = \"25:00\"\n", base)) {
        Err(LoadError::TimeFormat { key, error }) => {
            assert_eq!(key, "start");
            assert_eq!(error, TimeError::PastMidnight);
        }
        other => panic!("unexpected {:?}", other.map(|_| ())),
    }
    let slot = load(&format!("{}[days.monday]\nduration = \"25:00\"\n", base));
    assert_eq!(slot.days.monday.unwrap().duration, Some(Time(1500)));
}

#[test]
fn meta_fields_load() {
    let doc = parse_document(
        "title = \"T\"\ndescription = \"D\"\nlink = \"L\"\n[languages.ja]\ndescription = \"jd\"\nlink = \"jl\"\n",
    )
    .unwrap();
    let meta = load_meta(&doc).unwrap();
    assert_eq!(meta.description.as_deref(), Some("D"));
    assert_eq!(meta.link.as_deref(), Some("L"));
    assert_eq!(meta.languages[0].meta.title, None);
    assert_eq!(meta.languages[0].meta.description.as_deref(), Some("jd"));
    assert_eq!(meta.languages[0].meta.link.as_deref(), Some("jl"));
}
