use undr::cite::Citations;
use undr::cite::IndexFrontier;
use undr::configuration::DatasetSettings;
use undr::types::Doi;
use undr::types::DoiStatus;
use undr::types::Name;
use undr::types::PathId;
use undr::Configuration;
use undr::ConfigurationError;
use undr::Mode;

fn p(s: &str) -> PathId {
    PathId(s.to_owned())
}

fn dataset(name: &str, mode: Mode, timeout: Option<i64>) -> DatasetSettings {
    DatasetSettings {
        name: Name(name.to_owned()),
        url: "https://example.com/".to_owned(),
        mode,
        timeout_milliseconds: timeout,
    }
}

#[test]
fn shared_doi_is_fetched_once() {
    let mut citations = Citations::new();
    assert!(citations.record(p("d/b"), Doi("10.x/y".to_owned())));
    assert!(!citations.record(p("d/a"), Doi("10.x/y".to_owned())));
    assert_eq!(citations.text(), "% d/a, d/b\n% DOI 10.x/y\n");
    assert!(citations.set_content(&Doi("10.x/y".to_owned()), "@article{a}\n".to_owned()));
    assert_eq!(citations.text(), "% d/a, d/b\n% DOI 10.x/y\n@article{a}\n");
}

#[test]
fn citations_are_ordered_by_first_location() {
    let mut citations = Citations::new();
    citations.record(p("d/z"), Doi("10.z".to_owned()));
    citations.record(p("c"), Doi("10.c".to_owned()));
    citations.record(p("d/a"), Doi("10.z".to_owned()));
    assert!(!citations.set_content(&Doi("10.unknown".to_owned()), "x".to_owned()));
    assert_eq!(citations.text(), "% c\n% DOI 10.c\n\n% d/a, d/z\n% DOI 10.z\n");
}

#[test]
fn long_location_lists_are_shortened() {
    let mut citations = Citations::new();
    for name in ["d/g", "d/f", "d/e", "d/d", "d/c", "d/b", "d/a"] {
        citations.record(p(name), Doi("10.x".to_owned()));
    }
    assert_eq!(citations.text(), "% d/a, d/b, d/c, ... (3 more), d/g\n% DOI 10.x\n");
}

#[test]
fn rewriting_the_same_record_keeps_the_file() {
    let mut citations = Citations::new();
    citations.record(p("d"), Doi("10.x".to_owned()));
    citations.set_content(&Doi("10.x".to_owned()), "record".to_owned());
    let first = citations.text();
    citations.set_content(&Doi("10.x".to_owned()), "record".to_owned());
    assert_eq!(citations.text(), first);
    assert_eq!(citations.text(), citations.text());
}

#[test]
fn empty_citation_file() {
    assert_eq!(Citations::new().text(), "");
}

#[test]
fn prettify_indents_by_depth() {
    let input = "@article{key,\n  title = {A {B} C},\n    year = 2020\n}".to_owned();
    assert_eq!(
        undr::bibtex::prettify(&input),
        "@article{key,\n    title = {A {B} C},\n    year = 2020\n}\n"
    );
    assert_eq!(undr::bibtex::prettify(&"a\n".to_owned()), "a\n");
    assert_eq!(undr::bibtex::prettify(&String::new()), "\n");
    assert_eq!(undr::bibtex::prettify(&"{\n{\nx\n}\n}".to_owned()), "{\n    {\n        x\n    }\n}\n");
    assert_eq!(undr::bibtex::prettify(&"}\n x".to_owned()), "}\nx\n");
}

#[test]
fn doi_requests() {
    assert_eq!(undr::cite::doi_url(&Doi("10.x/y".to_owned())), "https://doi.org/10.x/y");
    assert!(matches!(undr::cite::doi_status_from_response(404, "missing".to_owned(), undr::Pretty(true)), DoiStatus::Error(s) if s == "missing"));
    assert!(matches!(undr::cite::doi_status_from_response(503, "down".to_owned(), undr::Pretty(false)), DoiStatus::Error(s) if s == "down"));
    assert!(matches!(undr::cite::doi_status_from_response(200, "@a{\nb\n}".to_owned(), undr::Pretty(false)), DoiStatus::Success(s) if s == "@a{\nb\n}"));
    assert!(matches!(undr::cite::doi_status_from_response(200, "@a{\nb\n}".to_owned(), undr::Pretty(true)), DoiStatus::Success(s) if s == "@a{\n    b\n}\n"));
}

#[test]
fn frontier_follows_each_dataset() {
    let configuration = Configuration {
        directory: "datasets".to_owned(),
        datasets: vec![
            dataset("d", Mode::Remote, None),
            dataset("off", Mode::Disabled, None),
            dataset("e", Mode::Raw, None),
        ],
    };
    let mut frontier = IndexFrontier::new(&configuration);
    assert_eq!(frontier.datasets.len(), 2);
    assert!(frontier.index_loaded(&p("d"), 1));
    assert!(frontier.index_loaded(&p("e"), 0));
    assert_eq!(frontier.directory_scanned(&p("d")), Some(false));
    assert_eq!(frontier.directory_scanned(&p("e")), Some(false));
    assert!(frontier.index_loaded(&p("d/a"), 0));
    assert_eq!(frontier.directory_scanned(&p("d/a")), Some(true));
    assert!(!frontier.index_loaded(&p("d"), usize::MAX));
}

#[test]
fn configuration_validation() {
    let ok = Configuration {
        directory: "datasets".to_owned(),
        datasets: vec![dataset("a", Mode::Raw, Some(1000)), dataset("b", Mode::Local, None)],
    };
    assert!(ok.validate().is_ok());
    let duplicate = Configuration {
        directory: "datasets".to_owned(),
        datasets: vec![dataset("a", Mode::Raw, None), dataset("b", Mode::Raw, Some(-5)), dataset("a", Mode::Raw, None)],
    };
    assert!(matches!(duplicate.validate(), Err(ConfigurationError::NegativeTimeout(-5))));
    let duplicate_first = Configuration {
        directory: "datasets".to_owned(),
        datasets: vec![dataset("a", Mode::Raw, None), dataset("a", Mode::Raw, Some(-5))],
    };
    assert!(matches!(duplicate_first.validate(), Err(ConfigurationError::Duplicate(n)) if n.0 == "a"));
}

#[test]
fn walk_roots_skip_disabled_datasets() {
    let configuration = Configuration {
        directory: "datasets".to_owned(),
        datasets: vec![dataset("off", Mode::Disabled, None), dataset("d", Mode::Local, Some(3))],
    };
    let roots = configuration.walk_roots();
    assert_eq!(roots.len(), 1);
    assert_eq!(roots[0].0, 1);
    assert_eq!(roots[0].1 .0, "d");
    assert_eq!(roots[0].2, undr::configuration::InstallableMode::Local);
    assert_eq!(undr::configuration::install_file_permits(undr::FilePermits(64)), 63);
    assert_eq!(undr::configuration::timeout_milliseconds(&configuration.datasets[1]), 3);
    assert_eq!(undr::configuration::timeout_milliseconds(&configuration.datasets[0]), 60000);
}

#[test]
fn frontier_credits_by_first_name() {
    let configuration = Configuration {
        directory: "datasets".to_owned(),
        datasets: vec![dataset("d", Mode::Remote, None), dataset("dx", Mode::Remote, None)],
    };
    let mut frontier = IndexFrontier::new(&configuration);
    assert!(frontier.index_loaded(&p("dx"), 1));
    assert_eq!(frontier.datasets[0].final_index_files, 1);
    assert_eq!(frontier.datasets[1].final_index_files, 2);
    assert!(frontier.index_loaded(&p("d"), 0));
    assert_eq!(frontier.directory_scanned(&p("d")), Some(false));
    assert_eq!(frontier.directory_scanned(&p("dx")), Some(false));
    assert!(frontier.index_loaded(&p("dx/a"), 0));
    assert_eq!(frontier.directory_scanned(&p("dx/a")), Some(true));
    assert_eq!(frontier.datasets[0].current_index_files, 1);
    assert_eq!(frontier.datasets[1].current_index_files, 2);
}

#[test]
fn frontier_reports_count_overflow() {
    let mut frontier = IndexFrontier {
        datasets: vec![undr::cite::DatasetProgress {
            name: Name("d".to_owned()),
            current_index_files: usize::MAX,
            final_index_files: usize::MAX,
        }],
    };
    assert_eq!(frontier.directory_scanned(&p("d/a")), None);
    assert_eq!(frontier.directory_scanned(&p("e")), Some(true));
}

#[test]
fn frontier_without_datasets_is_complete() {
    let configuration = Configuration { directory: "datasets".to_owned(), datasets: vec![dataset("off", Mode::Disabled, None)] };
    assert!(IndexFrontier::new(&configuration).all_scanned());
}

#[test]
fn non_success_statuses_are_errors() {
    assert!(matches!(undr::cite::doi_status_from_response(302, "moved".to_owned(), undr::Pretty(false)), DoiStatus::Error(s) if s == "moved"));
    assert!(matches!(undr::cite::doi_status_from_response(100, "x".to_owned(), undr::Pretty(false)), DoiStatus::Error(_)));
    assert!(matches!(undr::cite::doi_status_from_response(204, "".to_owned(), undr::Pretty(false)), DoiStatus::Success(_)));
}

#[test]
fn citation_file_ignores_the_order_dois_were_met() {
    let mut first = Citations::new();
    first.record(p("d/b"), Doi("10.b".to_owned()));
    first.record(p("d/a"), Doi("10.a".to_owned()));
    first.record(p("d/c"), Doi("10.b".to_owned()));
    let mut second = Citations::new();
    second.record(p("d/a"), Doi("10.a".to_owned()));
    second.record(p("d/b"), Doi("10.b".to_owned()));
    second.record(p("d/c"), Doi("10.b".to_owned()));
    assert_eq!(first.text(), second.text());
    assert_eq!(first.text(), "% d/a\n% DOI 10.a\n\n% d/b, d/c\n% DOI 10.b\n");
}
