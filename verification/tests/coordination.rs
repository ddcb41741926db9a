use whois_ingest::coordinator::{Coordinator, UnitState};
use whois_ingest::error::{Error, ErrorKind, ParseError, ParseErrorKind};

#[test]
fn units_start_in_order_up_to_the_limit() {
    let mut c = Coordinator::new(5, 2);
    assert_eq!(c.unit_count(), 5);
    assert_eq!(c.concurrency_limit(), 2);
    assert_eq!(c.start_next(), Some(0));
    assert_eq!(c.start_next(), Some(1));
    assert_eq!(c.start_next(), None);
    assert_eq!(c.running(), 2);
    assert_eq!(c.state(0), Some(UnitState::Running));
    assert_eq!(c.state(2), Some(UnitState::Pending));
    assert_eq!(c.state(5), None);
    assert!(!c.is_done());
}

#[test]
fn a_completed_unit_makes_room_for_the_next() {
    let mut c = Coordinator::new(3, 1);
    assert_eq!(c.start_next(), Some(0));
    assert_eq!(c.start_next(), None);
    assert!(c.complete(0, Ok(())));
    assert_eq!(c.running(), 0);
    assert_eq!(c.start_next(), Some(1));
    assert!(c.complete(1, Ok(())));
    assert_eq!(c.start_next(), Some(2));
    assert_eq!(c.start_next(), None);
    assert!(!c.is_done());
    assert!(c.complete(2, Ok(())));
    assert!(c.is_done());
    assert_eq!(c.succeeded(), 3);
    assert!(c.errors().is_empty());
    assert_eq!(c.start_next(), None);
}

#[test]
fn only_a_running_unit_completes() {
    let mut c = Coordinator::new(2, 2);
    assert!(!c.complete(0, Ok(())));
    assert!(!c.complete(7, Ok(())));
    assert_eq!(c.start_next(), Some(0));
    assert!(c.complete(0, Err(Error::Store)));
    assert!(!c.complete(0, Ok(())));
    assert_eq!(c.state(0), Some(UnitState::Failed(Error::Store)));
    assert_eq!(c.state(1), Some(UnitState::Pending));
}

#[test]
fn a_failure_does_not_stop_the_other_units() {
    let mut c = Coordinator::new(4, 4);
    for unit in 0..4 {
        assert_eq!(c.start_next(), Some(unit));
    }
    assert!(c.complete(2, Err(Error::Store)));
    assert!(!c.is_done());
    assert_eq!(c.running(), 3);
    assert!(c.complete(3, Ok(())));
    assert!(c.complete(0, Ok(())));
    assert!(c.complete(1, Err(Error::Io)));
    assert!(c.is_done());
    assert_eq!(c.succeeded(), 2);
    assert_eq!(c.errors(), vec![(1, Error::Io), (2, Error::Store)]);
}

#[test]
fn a_run_without_units_is_done_at_once() {
    let mut c = Coordinator::new(0, 3);
    assert!(c.is_done());
    assert_eq!(c.start_next(), None);
    assert_eq!(c.succeeded(), 0);
    assert!(c.errors().is_empty());
}

#[test]
fn error_kinds_have_names() {
    let parse = Error::Parse(ParseError { row: 1, column: 2, kind: ParseErrorKind::MissingField });
    assert_eq!(Error::Io.kind_name(), "IoError");
    assert_eq!(parse.kind_name(), "ParseError");
    assert_eq!(Error::Archive.kind_name(), "ArchiveError");
    assert_eq!(Error::Store.kind_name(), "StoreError");
    assert_eq!(Error::Io.kind(), ErrorKind::Io);
    assert_eq!(parse.kind(), ErrorKind::Parse);
    assert_eq!(Error::Archive.kind(), ErrorKind::Archive);
    assert_eq!(Error::Store.kind(), ErrorKind::Store);
}

#[test]
fn a_stopped_run_starts_nothing_more_and_ends_with_the_units_in_flight() {
    let mut c = Coordinator::new(5, 2);
    assert_eq!(c.start_next(), Some(0));
    assert_eq!(c.start_next(), Some(1));
    assert!(!c.is_stopped());
    c.stop();
    assert!(c.is_stopped());
    assert!(!c.is_done());
    assert!(c.complete(0, Ok(())));
    assert_eq!(c.start_next(), None);
    assert!(!c.is_done());
    assert!(c.complete(1, Err(Error::Store)));
    assert!(c.is_done());
    assert_eq!(c.state(2), Some(UnitState::Pending));
    assert_eq!(c.succeeded(), 1);
    assert_eq!(c.errors(), vec![(1, Error::Store)]);
}
