use minigrep::{run, Config};

fn arguments(words: &[&str]) -> Vec<String> {
    words.iter().map(|word| word.to_string()).collect()
}

#[test]
fn config_takes_query_and_file_name() {
    let args = arguments(&["minigrep", "needle", "haystack.txt"]);
    let config = Config::new(&args, false).unwrap();
    assert_eq!("needle", config.query);
    assert_eq!("haystack.txt", config.filename);
    assert!(config.case_sensitive);
}

#[test]
fn config_ignores_further_arguments() {
    let args = arguments(&["minigrep", "needle", "haystack.txt", "more", "still more"]);
    let config = Config::new(&args, false).unwrap();
    assert_eq!("needle", config.query);
    assert_eq!("haystack.txt", config.filename);
}

#[test]
fn config_accepts_an_empty_query() {
    let args = arguments(&["minigrep", "", "haystack.txt"]);
    let config = Config::new(&args, false).unwrap();
    assert_eq!("", config.query);
}

#[test]
fn missing_query_is_reported() {
    let args = arguments(&["minigrep"]);
    assert_eq!(Some("missing query string"), Config::new(&args, false).err());
    let none = arguments(&[]);
    assert_eq!(Some("missing query string"), Config::new(&none, true).err());
}

#[test]
fn missing_file_name_is_reported() {
    let args = arguments(&["minigrep", "needle"]);
    assert_eq!(Some("missing file name"), Config::new(&args, false).err());
    assert_eq!(Some("missing file name"), Config::new(&args, true).err());
}

#[test]
fn variable_in_the_environment_turns_case_off() {
    let args = arguments(&["minigrep", "needle", "haystack.txt"]);
    let config = Config::new(&args, true).unwrap();
    assert!(!config.case_sensitive);
}

#[test]
fn run_searches_with_regard_to_case() {
    let args = arguments(&["minigrep", "rust", "poem.txt"]);
    let config = Config::new(&args, false).unwrap();
    let contents = "Rust:\nsafe, fast, productive.\nPick three.\nTrust me.";
    assert_eq!(vec!["Trust me."], run(config, contents));
}

#[test]
fn run_searches_without_regard_to_case() {
    let args = arguments(&["minigrep", "rUsT", "poem.txt"]);
    let config = Config::new(&args, true).unwrap();
    let contents = "Rust:\nsafe, fast, productive.\nPick three.\nTrust me.";
    assert_eq!(vec!["Rust:", "Trust me."], run(config, contents));
}

#[test]
fn run_without_a_match_returns_no_line() {
    let config = Config {
        query: String::from("slow"),
        filename: String::from("poem.txt"),
        case_sensitive: true,
    };
    assert_eq!(Vec::<&str>::new(), run(config, "safe, fast, productive."));
}
