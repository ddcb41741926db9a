use whois_ingest::config::{CliArgs, CliOpts, ConfigError, DEFAULT_MONGO_PORT, DEFAULT_THREADS};

fn nothing_given() -> CliArgs {
    CliArgs {
        csv_files_path: None,
        mongo_host: None,
        mongo_port: None,
        mongo_db: None,
        mongo_collection: None,
        mongo_user: None,
        mongo_password: None,
        debug: false,
        daily: false,
        download_code: None,
        threads: None,
        strict: false,
    }
}

#[test]
fn defaults_fill_what_was_left_out() {
    let opts = CliOpts::parse_cli(nothing_given()).unwrap();
    assert_eq!(
        opts,
        CliOpts {
            csv_files_path: "./data".to_string(),
            mongo_host: "localhost".to_string(),
            mongo_port: 27017,
            mongo_db: "whois".to_string(),
            mongo_collection: "feeds".to_string(),
            mongo_user: String::new(),
            mongo_password: String::new(),
            debug: false,
            daily: false,
            download_code: String::new(),
            threads: 512,
            strict: false,
        }
    );
    assert_eq!(DEFAULT_THREADS, 512);
    assert_eq!(DEFAULT_MONGO_PORT, 27017);
}

#[test]
fn given_options_are_kept() {
    let args = CliArgs {
        csv_files_path: Some("/srv/feeds".to_string()),
        mongo_host: Some("db.internal".to_string()),
        mongo_port: Some(27018),
        mongo_db: Some("registry".to_string()),
        mongo_collection: Some("domains".to_string()),
        mongo_user: Some("loader".to_string()),
        mongo_password: Some("pw".to_string()),
        debug: true,
        daily: true,
        download_code: Some("abc".to_string()),
        threads: Some(8),
        strict: true,
    };
    let opts = CliOpts::parse_cli(args).unwrap();
    assert_eq!(opts.csv_files_path, "/srv/feeds");
    assert_eq!(opts.mongo_host, "db.internal");
    assert_eq!(opts.mongo_port, 27018);
    assert_eq!(opts.mongo_db, "registry");
    assert_eq!(opts.mongo_collection, "domains");
    assert_eq!(opts.mongo_user, "loader");
    assert_eq!(opts.mongo_password, "pw");
    assert!(opts.debug);
    assert!(opts.daily);
    assert_eq!(opts.download_code, "abc");
    assert_eq!(opts.threads, 8);
    assert!(opts.strict);
    assert_eq!(opts.mongodb_url(), "mongodb://loader:pw@db.internal:27018");
}

#[test]
fn daily_needs_a_download_code() {
    let mut args = nothing_given();
    args.daily = true;
    assert_eq!(CliOpts::parse_cli(args.clone()), Err(ConfigError::MissingDownloadCode));
    args.download_code = Some(String::new());
    assert_eq!(CliOpts::parse_cli(args.clone()), Err(ConfigError::MissingDownloadCode));
    args.threads = Some(0);
    assert_eq!(CliOpts::parse_cli(args.clone()), Err(ConfigError::MissingDownloadCode));
    args.download_code = Some("x".to_string());
    assert_eq!(CliOpts::parse_cli(args), Err(ConfigError::NoThreads));
}

#[test]
fn at_least_one_thread_is_needed() {
    let mut args = nothing_given();
    args.threads = Some(0);
    assert_eq!(CliOpts::parse_cli(args.clone()), Err(ConfigError::NoThreads));
    args.threads = Some(1);
    assert_eq!(CliOpts::parse_cli(args).unwrap().threads, 1);
}

#[test]
fn store_address_without_and_with_credentials() {
    let opts = CliOpts::parse_cli(nothing_given()).unwrap();
    assert_eq!(opts.mongodb_url(), "mongodb://localhost:27017");
    let mut args = nothing_given();
    args.mongo_user = Some("u".to_string());
    assert_eq!(CliOpts::parse_cli(args).unwrap().mongodb_url(), "mongodb://u:@localhost:27017");
    let mut args = nothing_given();
    args.mongo_password = Some("p".to_string());
    args.mongo_port = Some(1);
    assert_eq!(CliOpts::parse_cli(args).unwrap().mongodb_url(), "mongodb://:p@localhost:1");
}
