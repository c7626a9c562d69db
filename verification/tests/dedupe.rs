use raptor_domain::date::Date;
use raptor_domain::dedupe::{dedupe_by_fitid, DedupeOutcome, Fitid};

#[derive(Debug, Clone, PartialEq)]
struct Event {
    fitid: &'static str,
    date: Date,
}

fn date(y: i32, m: u32, d: u32) -> Date {
    Date::from_ymd(y, m, d).unwrap()
}

#[test]
fn sem_repeticao_preserva_todos() {
    let events = vec![
        Event { fitid: "A1", date: date(2026, 1, 1) },
        Event { fitid: "A2", date: date(2026, 1, 2) },
    ];
    let outcome = dedupe_by_fitid(events, |e| Fitid::from(e.fitid), |e| e.date);
    assert_eq!(outcome.duplicates_removed, 0);
    assert_eq!(outcome.events.len(), 2);
}

#[test]
fn fitid_repetido_mantem_ocorrencia_mais_antiga() {
    let events = vec![
        Event { fitid: "A1", date: date(2026, 1, 10) },
        Event { fitid: "A1", date: date(2026, 1, 5) },
    ];
    let outcome = dedupe_by_fitid(events, |e| Fitid::from(e.fitid), |e| e.date);
    assert_eq!(outcome.duplicates_removed, 1);
    assert_eq!(outcome.events, vec![Event { fitid: "A1", date: date(2026, 1, 5) }]);
}

#[test]
fn fitid_repetido_com_nova_ocorrencia_mais_antiga_depois() {
    // The earliest occurrence comes LATER in the input: it still wins.
    let events = vec![
        Event { fitid: "A1", date: date(2026, 1, 5) },
        Event { fitid: "A1", date: date(2026, 1, 1) },
    ];
    let outcome = dedupe_by_fitid(events, |e| Fitid::from(e.fitid), |e| e.date);
    assert_eq!(outcome.events, vec![Event { fitid: "A1", date: date(2026, 1, 1) }]);
}

#[test]
fn empate_de_data_mantem_primeira_ocorrencia() {
    let events = vec![
        Event { fitid: "A1", date: date(2026, 1, 1) },
        Event { fitid: "A1", date: date(2026, 1, 1) },
    ];
    let outcome = dedupe_by_fitid(events, |e| Fitid::from(e.fitid), |e| e.date);
    assert_eq!(outcome.duplicates_removed, 1);
    assert_eq!(outcome.events.len(), 1);
}

#[test]
fn tres_ocorrencias_do_mesmo_fitid_conta_duas_duplicatas() {
    let events = vec![
        Event { fitid: "A1", date: date(2026, 1, 10) },
        Event { fitid: "A1", date: date(2026, 1, 5) },
        Event { fitid: "A1", date: date(2026, 1, 20) },
    ];
    let outcome = dedupe_by_fitid(events, |e| Fitid::from(e.fitid), |e| e.date);
    assert_eq!(outcome.duplicates_removed, 2);
    assert_eq!(outcome.events, vec![Event { fitid: "A1", date: date(2026, 1, 5) }]);
}

#[test]
fn lista_vazia_nao_gera_duplicatas() {
    let outcome: DedupeOutcome<Event> =
        dedupe_by_fitid(Vec::new(), |e| Fitid::from(e.fitid), |e| e.date);
    assert_eq!(outcome.duplicates_removed, 0);
    assert!(outcome.events.is_empty());
}

#[test]
fn dedupe_doc_example() {
    let events = vec![
        Event { fitid: "A1", date: date(2026, 1, 10) },
        Event { fitid: "A1", date: date(2026, 1, 5) },
        Event { fitid: "A2", date: date(2026, 1, 12) },
    ];
    let outcome = dedupe_by_fitid(events, |e| Fitid::from(e.fitid), |e| e.date);
    assert_eq!(outcome.duplicates_removed, 1);
    assert_eq!(outcome.events.len(), 2);
    assert_eq!(outcome.events[0].date, date(2026, 1, 5));
}

#[test]
fn survivors_keep_order_of_first_occurrence() {
    // B's earliest copy is the last entry; it takes B's place, which stays
    // before A, since B occurred first.
    let events = vec![
        Event { fitid: "B", date: date(2026, 3, 1) },
        Event { fitid: "A", date: date(2026, 1, 1) },
        Event { fitid: "C", date: date(2026, 2, 1) },
        Event { fitid: "A", date: date(2026, 1, 2) },
        Event { fitid: "B", date: date(2025, 12, 31) },
    ];
    let outcome = dedupe_by_fitid(events, |e| Fitid::from(e.fitid), |e| e.date);
    assert_eq!(
        outcome.events,
        vec![
            Event { fitid: "B", date: date(2025, 12, 31) },
            Event { fitid: "A", date: date(2026, 1, 1) },
            Event { fitid: "C", date: date(2026, 2, 1) },
        ]
    );
    assert_eq!(outcome.events.len() + outcome.duplicates_removed, 5);
}

#[test]
fn fitid_round_trips_its_text() {
    assert_eq!(Fitid::new("ABC-123").as_str(), "ABC-123");
    assert_eq!(Fitid::from("X"), Fitid::new("X"));
    assert_ne!(Fitid::from("X"), Fitid::new("Y"));
}

#[test]
fn dates_follow_the_calendar() {
    assert_eq!(date(1, 1, 1).day_number(), 1);
    assert_eq!(date(1970, 1, 1).day_number(), 719_163);
    assert_eq!(date(0, 1, 1).day_number(), -365);
    assert!(date(2025, 12, 31).is_before(&date(2026, 1, 1)));
    assert!(!date(2026, 1, 1).is_before(&date(2026, 1, 1)));
    assert_eq!(date(2024, 3, 1).day_number() - date(2024, 2, 28).day_number(), 2);
    assert!(Date::from_ymd(2023, 2, 29).is_none());
    assert!(Date::from_ymd(2024, 2, 29).is_some());
    assert!(Date::from_ymd(2026, 13, 1).is_none());
    assert!(Date::from_ymd(2026, 4, 31).is_none());
    assert!(Date::from_ymd(2026, 1, 0).is_none());
    assert!(Date::from_ymd(262_143, 1, 1).is_none());
    assert!(Date::from_ymd(262_142, 12, 31).is_some());
    assert!(Date::from_ymd(-262_143, 1, 1).is_some());
    assert!(Date::from_ymd(-262_144, 12, 31).is_none());
}

#[test]
fn deduplicating_twice_changes_nothing() {
    let events = vec![
        Event { fitid: "B", date: date(2026, 3, 1) },
        Event { fitid: "A", date: date(2026, 1, 1) },
        Event { fitid: "B", date: date(2025, 12, 31) },
        Event { fitid: "A", date: date(2026, 1, 1) },
    ];
    let first = dedupe_by_fitid(events, |e| Fitid::from(e.fitid), |e| e.date);
    assert_eq!(first.duplicates_removed, 2);
    let again = dedupe_by_fitid(first.events.clone(), |e| Fitid::from(e.fitid), |e| e.date);
    assert_eq!(again.duplicates_removed, 0);
    assert_eq!(again.events, first.events);
}
