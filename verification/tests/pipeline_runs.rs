use whois_ingest::error::{Error, ErrorKind, ParseError, ParseErrorKind};
use whois_ingest::pipeline::{Failure, Origin, Phase, Pipeline};
use whois_ingest::source::SourceEntry;
use mongodb::bson::{Bson, Document};
use whois_ingest::db::UpsertPlan;

const HEAD: &str = "num,domain_name,domain_keyword,domain_tld,query_time,registrar_name\n";

fn entry(name: &str, rows: &[(u32, &str, &str)]) -> SourceEntry {
    let mut content = String::from(HEAD);
    for (num, domain, registrar) in rows {
        content.push_str(&format!("{},{},k,t,now,{}\n", num, domain, registrar));
    }
    SourceEntry { name: name.to_string(), content }
}

fn read(entries: Vec<SourceEntry>) -> Vec<Result<SourceEntry, Error>> {
    entries.into_iter().map(Ok).collect()
}

fn two_files() -> Vec<SourceEntry> {
    vec![
        entry("a.csv", &[(1, "x.org", "a"), (2, "y.org", "a"), (3, "z.org", "a")]),
        entry("b.csv", &[(1, "y.org", "b"), (2, "w.org", "b")]),
    ]
}

/// A store of documents that does what the plan asks of the real one:
/// delete what the filter matches, then insert the documents.
struct DocStore {
    documents: Vec<Document>,
}

impl DocStore {
    fn new() -> DocStore {
        DocStore { documents: Vec::new() }
    }

    fn execute(&mut self, plan: UpsertPlan) {
        let among = plan.filter.get_document("domain_name").unwrap();
        let names: Vec<Bson> = among.get_array("$in").unwrap().clone();
        self.documents.retain(|d| match d.get("domain_name") {
            Some(name) => !names.contains(name),
            None => true,
        });
        self.documents.extend(plan.documents);
    }

    fn len(&self) -> usize {
        self.documents.len()
    }

    fn names(&self) -> Vec<String> {
        self.documents.iter().map(|d| d.get_str("domain_name").unwrap().to_string()).collect()
    }

    fn get(&self, name: &str) -> Option<&Document> {
        self.documents.iter().find(|d| d.get_str("domain_name") == Ok(name))
    }

    fn registrar(&self, name: &str) -> Option<&str> {
        self.get(name).unwrap().get_str("registrar_name").ok()
    }
}

/// Runs to the end against a store of documents. `order` picks, among the
/// batches in flight, the one that completes next; `fails` names the
/// batches whose commit fails.
fn run(
    pipeline: &mut Pipeline,
    store: &mut DocStore,
    entries: Vec<SourceEntry>,
    newest_first: bool,
    fails: &[usize],
) -> (Vec<usize>, usize) {
    assert!(pipeline.begin());
    assert!(pipeline.enumerated(Ok(read(entries))));
    let mut in_flight: Vec<usize> = Vec::new();
    let mut completion_order = Vec::new();
    let mut most_in_flight = 0;
    loop {
        while let Some(unit) = pipeline.start_next() {
            in_flight.push(unit);
        }
        most_in_flight = most_in_flight.max(in_flight.len());
        if in_flight.is_empty() {
            break;
        }
        let unit = if newest_first { in_flight.pop().unwrap() } else { in_flight.remove(0) };
        let outcome = if fails.contains(&unit) {
            Err(Error::Store)
        } else {
            store.execute(pipeline.plan(unit).unwrap());
            Ok(())
        };
        assert!(pipeline.batch_done(unit, outcome));
        completion_order.push(unit);
    }
    (completion_order, most_in_flight)
}

#[test]
fn two_files_with_a_shared_domain() {
    let mut pipeline = Pipeline::new(1, 5000, false);
    let mut store = DocStore::new();
    let (order, most) = run(&mut pipeline, &mut store, two_files(), false, &[]);
    assert_eq!(order, vec![0, 1]);
    assert_eq!(most, 1);
    let mut names = store.names();
    names.sort();
    assert_eq!(names, vec!["w.org", "x.org", "y.org", "z.org"]);
    assert_eq!(store.len(), 4);
    assert_eq!(store.registrar("y.org"), Some("b"));
    let report = pipeline.report();
    assert_eq!(report.phase, Phase::Done);
    assert_eq!(report.batches, 2);
    assert_eq!(report.committed, 2);
    assert_eq!(report.ingested, 5);
    assert!(report.failures.is_empty());
    assert!(report.succeeded);
    assert_eq!(report.exit_code(), 0);
}

#[test]
fn key_set_does_not_depend_on_the_completion_order() {
    let mut pipeline = Pipeline::new(4, 5000, false);
    let mut store = DocStore::new();
    let (order, _) = run(&mut pipeline, &mut store, two_files(), true, &[]);
    assert_eq!(order, vec![1, 0]);
    let mut names = store.names();
    names.sort();
    assert_eq!(names, vec!["w.org", "x.org", "y.org", "z.org"]);
    assert_eq!(store.registrar("y.org"), Some("a"));
}

#[test]
fn empty_file_makes_no_batches_and_succeeds() {
    let mut pipeline = Pipeline::new(3, 5000, true);
    assert!(pipeline.begin());
    let empty = SourceEntry { name: "empty.csv".to_string(), content: String::new() };
    assert!(pipeline.enumerated(Ok(vec![Ok(empty)])));
    assert_eq!(pipeline.phase(), Phase::Done);
    assert_eq!(pipeline.start_next(), None);
    assert!(pipeline.batch(0).is_none());
    assert!(pipeline.plan(0).is_none());
    let report = pipeline.report();
    assert_eq!(report.batches, 0);
    assert_eq!(report.committed, 0);
    assert_eq!(report.ingested, 0);
    assert!(report.failures.is_empty());
    assert!(report.succeeded);
    assert_eq!(report.exit_code(), 0);
}

#[test]
fn no_inputs_at_all_succeed() {
    let mut pipeline = Pipeline::new(3, 10, true);
    assert!(pipeline.begin());
    assert!(pipeline.enumerated(Ok(Vec::new())));
    assert_eq!(pipeline.phase(), Phase::Done);
    assert!(pipeline.report().succeeded);
}

#[test]
fn a_failed_batch_leaves_one_error_and_the_others_commit() {
    let entries = vec![
        entry("a.csv", &[(1, "a1.org", "a"), (2, "a2.org", "a"), (3, "a3.org", "a"), (4, "a4.org", "a"), (5, "a5.org", "a")]),
        entry("b.csv", &[(1, "b1.org", "b"), (2, "b2.org", "b"), (3, "b3.org", "b")]),
    ];
    let mut pipeline = Pipeline::new(2, 2, false);
    let mut store = DocStore::new();
    let (order, most) = run(&mut pipeline, &mut store, entries, false, &[1]);
    assert_eq!(order.len(), 5);
    assert_eq!(most, 2);
    let report = pipeline.report();
    assert_eq!(report.phase, Phase::Done);
    assert_eq!(report.batches, 5);
    assert_eq!(report.committed, 4);
    assert_eq!(report.ingested, 6);
    assert_eq!(report.failures, vec![Failure { origin: Origin::Batch(1), error: Error::Store }]);
    assert_eq!(report.failures_of(ErrorKind::Store), 1);
    assert_eq!(report.failures_of(ErrorKind::Parse), 0);
    assert!(report.succeeded);
    let mut names = store.names();
    names.sort();
    assert_eq!(names, vec!["a1.org", "a2.org", "a5.org", "b1.org", "b2.org", "b3.org"]);
}

#[test]
fn a_strict_run_fails_when_a_batch_fails() {
    let mut pipeline = Pipeline::new(2, 2, true);
    let mut store = DocStore::new();
    run(&mut pipeline, &mut store, two_files(), false, &[0]);
    let report = pipeline.report();
    assert_eq!(report.phase, Phase::Done);
    assert!(!report.succeeded);
    assert_eq!(report.exit_code(), 1);
    assert_eq!(report.failures, vec![Failure { origin: Origin::Batch(0), error: Error::Store }]);
}

#[test]
fn a_file_that_does_not_parse_is_reported_and_the_others_are_ingested() {
    let bad = SourceEntry { name: "bad.csv".to_string(), content: format!("{}1,,k,t,now,r\n", HEAD) };
    let entries = vec![entry("a.csv", &[(1, "x.org", "a")]), bad, entry("c.csv", &[(1, "w.org", "c")])];
    let mut pipeline = Pipeline::new(2, 10, false);
    let mut store = DocStore::new();
    run(&mut pipeline, &mut store, entries.clone(), false, &[]);
    let expected = Failure {
        origin: Origin::Entry(1),
        error: Error::Parse(ParseError { row: 1, column: 1, kind: ParseErrorKind::MissingField }),
    };
    let report = pipeline.report();
    assert_eq!(report.failures, vec![expected]);
    assert_eq!(report.failures_of(ErrorKind::Parse), 1);
    assert_eq!(report.batches, 2);
    assert!(report.succeeded);
    assert_eq!(store.len(), 2);

    let mut strict = Pipeline::new(2, 10, true);
    let mut store = DocStore::new();
    run(&mut strict, &mut store, entries, false, &[]);
    assert!(!strict.report().succeeded);
    assert_eq!(store.len(), 2);
}

#[test]
fn a_file_that_cannot_be_read_is_reported_and_the_others_are_ingested() {
    let listing = vec![
        Ok(entry("a.csv", &[(1, "x.org", "a")])),
        Err(Error::Io),
        Ok(entry("c.csv", &[(1, "w.org", "c"), (2, "v.org", "c")])),
    ];
    let mut pipeline = Pipeline::new(2, 10, false);
    assert!(pipeline.begin());
    assert!(pipeline.enumerated(Ok(listing)));
    assert_eq!(pipeline.phase(), Phase::Upserting);
    assert_eq!(pipeline.start_next(), Some(0));
    assert_eq!(pipeline.start_next(), Some(1));
    assert!(pipeline.batch_done(1, Ok(())));
    assert!(pipeline.batch_done(0, Ok(())));
    let report = pipeline.report();
    assert_eq!(report.phase, Phase::Done);
    assert_eq!(report.failures, vec![Failure { origin: Origin::Entry(1), error: Error::Io }]);
    assert_eq!(report.ingested, 3);
    assert!(report.succeeded);
}

#[test]
fn a_listing_that_fails_fails_the_run() {
    let mut pipeline = Pipeline::new(2, 10, false);
    assert!(pipeline.begin());
    assert!(pipeline.enumerated(Err(Error::Io)));
    assert_eq!(pipeline.phase(), Phase::Failed);
    assert_eq!(pipeline.start_next(), None);
    let report = pipeline.report();
    assert!(!report.succeeded);
    assert_eq!(report.exit_code(), 1);
    assert_eq!(report.failures, vec![Failure { origin: Origin::Enumeration, error: Error::Io }]);
    assert_eq!(report.failures_of(ErrorKind::Io), 1);

    let mut pipeline = Pipeline::new(2, 10, false);
    assert!(pipeline.begin());
    assert!(pipeline.enumerated(Err(Error::Archive)));
    assert_eq!(pipeline.report().failures_of(ErrorKind::Archive), 1);
}

#[test]
fn events_out_of_turn_change_nothing() {
    let mut pipeline = Pipeline::new(2, 10, false);
    assert_eq!(pipeline.phase(), Phase::Idle);
    assert!(!pipeline.enumerated(Ok(read(two_files()))));
    assert_eq!(pipeline.start_next(), None);
    assert!(!pipeline.batch_done(0, Ok(())));
    assert_eq!(pipeline.phase(), Phase::Idle);
    assert!(!pipeline.report().succeeded);
    assert!(pipeline.begin());
    assert!(!pipeline.begin());
    assert_eq!(pipeline.phase(), Phase::Enumerating);
    assert!(pipeline.enumerated(Ok(read(two_files()))));
    assert_eq!(pipeline.phase(), Phase::Upserting);
    assert!(!pipeline.enumerated(Ok(Vec::new())));
    assert!(!pipeline.batch_done(0, Ok(())));
    assert_eq!(pipeline.start_next(), Some(0));
    assert!(!pipeline.batch_done(1, Ok(())));
    assert!(pipeline.batch_done(0, Ok(())));
    assert!(!pipeline.batch_done(0, Ok(())));
}

#[test]
fn limit_one_and_limit_many_leave_the_same_store() {
    let entries = vec![
        entry("a.csv", &[(1, "a1.org", "a"), (2, "a2.org", "a"), (3, "a3.org", "a"), (4, "a1.org", "a-later")]),
        entry("b.csv", &[(1, "b1.org", "b"), (2, "b2.org", "b"), (3, "b3.org", "b")]),
    ];
    let mut one = Pipeline::new(1, 4, false);
    let mut store_one = DocStore::new();
    let (order_one, most_one) = run(&mut one, &mut store_one, entries.clone(), false, &[]);
    let mut many = Pipeline::new(8, 4, false);
    let mut store_many = DocStore::new();
    let (order_many, most_many) = run(&mut many, &mut store_many, entries, true, &[]);
    assert_eq!(order_one, vec![0, 1]);
    assert_eq!(order_many, vec![1, 0]);
    assert_eq!(most_one, 1);
    assert_eq!(most_many, 2);
    let mut names_one = store_one.names();
    let mut names_many = store_many.names();
    names_one.sort();
    names_many.sort();
    assert_eq!(names_one, names_many);
    assert_eq!(names_one.len(), 6);
    for name in names_one {
        assert_eq!(store_one.get(&name), store_many.get(&name));
    }
    assert_eq!(store_one.registrar("a1.org"), Some("a-later"));
    assert_eq!(store_one.get("a1.org").unwrap().get("num"), Some(&Bson::Int32(4)));
}

#[test]
fn plan_of_a_batch_matches_its_records() {
    let mut pipeline = Pipeline::new(2, 2, false);
    assert!(pipeline.begin());
    assert!(pipeline.enumerated(Ok(read(two_files()))));
    let plan = pipeline.plan(1).unwrap();
    let batch = pipeline.batch(1).unwrap();
    assert_eq!(batch.len(), 1);
    assert_eq!(batch[0].domain_name, "z.org");
    assert_eq!(plan.documents.len(), 1);
    assert_eq!(plan.documents[0].get_str("domain_name").unwrap(), "z.org");
    assert_eq!(plan.documents[0], batch[0].to_document());
    assert!(pipeline.plan(3).is_none());
    assert_eq!(pipeline.batch(2).unwrap().len(), 2);
}

#[test]
fn a_cancelled_run_lets_the_batches_in_flight_end_and_starts_no_more() {
    let entries = vec![entry("a.csv", &[(1, "a1.org", "a"), (2, "a2.org", "a"), (3, "a3.org", "a")])];
    let mut pipeline = Pipeline::new(2, 1, false);
    assert!(pipeline.begin());
    assert!(pipeline.enumerated(Ok(read(entries))));
    assert_eq!(pipeline.start_next(), Some(0));
    assert!(pipeline.cancel());
    assert_eq!(pipeline.phase(), Phase::Upserting);
    assert_eq!(pipeline.start_next(), None);
    assert!(pipeline.batch_done(0, Ok(())));
    assert_eq!(pipeline.phase(), Phase::Done);
    assert_eq!(pipeline.start_next(), None);
    assert!(!pipeline.cancel());
    let report = pipeline.report();
    assert!(report.cancelled);
    assert!(!report.succeeded);
    assert_eq!(report.exit_code(), 1);
    assert_eq!(report.batches, 3);
    assert_eq!(report.committed, 1);
    assert_eq!(report.ingested, 1);
    assert!(report.failures.is_empty());
}

#[test]
fn a_run_cancelled_before_the_listing_commits_nothing() {
    let mut pipeline = Pipeline::new(2, 10, false);
    assert!(pipeline.cancel());
    assert_eq!(pipeline.phase(), Phase::Idle);
    assert!(pipeline.begin());
    assert!(pipeline.enumerated(Ok(read(two_files()))));
    assert_eq!(pipeline.phase(), Phase::Done);
    assert_eq!(pipeline.start_next(), None);
    let report = pipeline.report();
    assert!(report.cancelled);
    assert_eq!(report.batches, 2);
    assert_eq!(report.committed, 0);
    assert!(!report.succeeded);
}

#[test]
fn a_run_cancelled_with_nothing_in_flight_is_done() {
    let mut pipeline = Pipeline::new(2, 10, false);
    assert!(pipeline.begin());
    assert!(pipeline.enumerated(Ok(read(two_files()))));
    assert!(pipeline.cancel());
    assert_eq!(pipeline.phase(), Phase::Done);
    assert!(!pipeline.report().succeeded);
    let mut failed = Pipeline::new(2, 10, false);
    assert!(failed.begin());
    assert!(failed.enumerated(Err(Error::Io)));
    assert!(!failed.cancel());
    assert!(!failed.report().cancelled);
}
