use minigrep::lines::split_first_line;
use minigrep::lowercase::to_lowercase;
use minigrep::search::contains;
use minigrep::{search_case_insensitive, search_case_sensitive};

#[test]
fn case_sensitive() {
    let query = "safe, fast, productive.";
    let contents = "\
        Rust:
safe, fast, productive.
safe, fast, Productive.
        Pick three.";

    assert_eq!(
        vec!["safe, fast, productive."],
        search_case_sensitive(query, contents)
    );
}

#[test]
fn case_insensitive() {
    let query = "rUsT";
    let contents = "\
Rust:
safe, fast, productive.
Pick three.
Trust me.";

    assert_eq!(
        vec!["Rust:", "Trust me."],
        search_case_insensitive(query, contents)
    );
}

#[test]
fn case_sensitive_on_one_line() {
    let query = "alone";
    let contents = "I am not alone in dark";
    assert_eq!(
        vec!["I am not alone in dark"],
        search_case_sensitive(query, contents)
    );
}

#[test]
fn case_insensitive_on_one_line() {
    let query = "Alone";
    let contents = "I am not alone in dark";
    assert_eq!(
        vec!["I am not alone in dark"],
        search_case_insensitive(query, contents)
    );
    assert!(search_case_sensitive(query, contents).is_empty());
}

#[test]
fn matches_keep_their_order_and_their_number() {
    let contents = "one fish\ntwo\nred fish\none fish\nblue";
    assert_eq!(
        vec!["one fish", "red fish", "one fish"],
        search_case_sensitive("fish", contents)
    );
    assert_eq!(
        vec!["one fish", "red fish", "one fish"],
        search_case_insensitive("FISH", contents)
    );
}

#[test]
fn no_match_is_an_empty_result() {
    let contents = "Rust:\nsafe, fast, productive.\nPick three.";
    assert_eq!(Vec::<&str>::new(), search_case_sensitive("slow", contents));
    assert_eq!(Vec::<&str>::new(), search_case_insensitive("SLOW", contents));
}

#[test]
fn empty_contents_have_no_lines() {
    assert_eq!(Vec::<&str>::new(), search_case_sensitive("a", ""));
    assert_eq!(Vec::<&str>::new(), search_case_sensitive("", ""));
    assert_eq!(Vec::<&str>::new(), search_case_insensitive("", ""));
}

#[test]
fn empty_query_matches_every_line() {
    let contents = "Rust:\n\nsafe, fast, productive.\n  \nPick three.\n";
    let all = vec!["Rust:", "", "safe, fast, productive.", "  ", "Pick three."];
    assert_eq!(all, search_case_sensitive("", contents));
    assert_eq!(all, search_case_insensitive("", contents));
}

#[test]
fn query_longer_than_every_line_matches_none() {
    let contents = "abc\nabcd\nab";
    assert_eq!(Vec::<&str>::new(), search_case_sensitive("abcde", contents));
    assert_eq!(Vec::<&str>::new(), search_case_insensitive("ABCDE", contents));
    assert_eq!(vec!["abcd"], search_case_sensitive("abcd", contents));
}

#[test]
fn searches_agree_from_run_to_run() {
    let contents = "Rust:\nsafe, fast, productive.\nPick three.\nTrust me.";
    assert_eq!(
        search_case_sensitive("ust", contents),
        search_case_sensitive("ust", contents)
    );
    assert_eq!(
        search_case_insensitive("UST", contents),
        search_case_insensitive("UST", contents)
    );
}

#[test]
fn insensitive_search_finds_what_sensitive_search_finds() {
    let contents = "Rust:\nsafe, fast, productive.\nPick three.\nTrust me.\ntrusty RUST";
    let narrow = search_case_sensitive("rust", contents);
    let wide = search_case_insensitive("rust", contents);
    assert_eq!(vec!["Trust me.", "trusty RUST"], narrow);
    assert_eq!(vec!["Rust:", "Trust me.", "trusty RUST"], wide);
    for line in narrow.iter() {
        assert!(wide.contains(line));
    }
}

#[test]
fn lines_end_at_line_feeds() {
    assert_eq!(vec!["a", "b"], search_case_sensitive("", "a\nb"));
    assert_eq!(vec!["a", "b"], search_case_sensitive("", "a\nb\n"));
    assert_eq!(vec!["a", "", "b"], search_case_sensitive("", "a\n\nb"));
    assert_eq!(vec!["", ""], search_case_sensitive("", "\n\n"));
    assert_eq!(vec![""], search_case_sensitive("", "\n"));
    assert_eq!(vec!["", "a"], search_case_sensitive("", "\na"));
}

#[test]
fn carriage_return_before_line_feed_is_dropped() {
    assert_eq!(vec!["a", "b"], search_case_sensitive("", "a\r\nb\r\n"));
    assert_eq!(vec!["a\r"], search_case_sensitive("", "a\r\r\n"));
    assert_eq!(vec!["a\rb"], search_case_sensitive("", "a\rb\n"));
    assert_eq!(vec!["", "x"], search_case_sensitive("", "\r\nx"));
    assert_eq!(Vec::<&str>::new(), search_case_sensitive("\r", "a\r\nb\r\n"));
}

#[test]
fn carriage_return_at_the_end_of_the_text_stays() {
    assert_eq!(vec!["a", "b\r"], search_case_sensitive("", "a\nb\r"));
    assert_eq!(vec!["b\r"], search_case_sensitive("\r", "a\r\nb\r"));
}

#[test]
fn lines_are_those_of_the_standard_library() {
    let samples = [
        "",
        "\n",
        "\r",
        "\r\n",
        "\n\r",
        "a",
        "a\n",
        "a\r\n",
        "a\r",
        "a\n\nb\n",
        "\r\n\r\n",
        "one\r\ntwo\nthree\r",
        "h\u{e9}llo\nw\u{f6}rld\r\n\u{4e16}\u{754c}\n\u{1f600}",
        "tab\there\n  spaced  \n",
        "\u{85}next\u{2028}line\n",
    ];
    for text in samples.iter() {
        let expected: Vec<&str> = text.lines().collect();
        assert_eq!(expected, search_case_sensitive("", text));
        assert_eq!(expected, search_case_insensitive("", text));
    }
}

#[test]
fn first_line_is_split_off() {
    assert_eq!(("a", "b\nc"), split_first_line("a\nb\nc"));
    assert_eq!(("a", ""), split_first_line("a\r\n"));
    assert_eq!(("a\r", ""), split_first_line("a\r"));
    assert_eq!(("", "\n"), split_first_line("\n\n"));
    assert_eq!(("", ""), split_first_line(""));
    assert_eq!(("w\u{f6}rld", "\u{4e16}"), split_first_line("w\u{f6}rld\r\n\u{4e16}"));
}

#[test]
fn contains_finds_contiguous_runs() {
    assert!(contains("safe, fast, productive.", "fast"));
    assert!(contains("safe, fast, productive.", "safe"));
    assert!(contains("safe, fast, productive.", "ive."));
    assert!(contains("safe, fast, productive.", ""));
    assert!(contains("", ""));
    assert!(contains("abc", "abc"));
    assert!(!contains("abc", "abcd"));
    assert!(!contains("", "a"));
    assert!(!contains("safe, fast", "sfe"));
    assert!(!contains("safe, fast", "Fast"));
    assert!(contains("aaab", "aab"));
}

#[test]
fn contains_agrees_with_the_standard_library() {
    let texts = [
        "",
        "a",
        "ab",
        "aab",
        "abab",
        "h\u{e9}llo w\u{f6}rld",
        "\u{e9}",
        "\u{4e16}\u{754c}",
        "\u{754c}",
        "\u{1f600}x\u{1f600}",
        "x\u{1f600}",
        "Rust",
        "rust",
    ];
    for haystack in texts.iter() {
        for needle in texts.iter() {
            assert_eq!(haystack.contains(needle), contains(haystack, needle));
        }
    }
}

#[test]
fn lowercase_follows_unicode() {
    assert_eq!("", to_lowercase(""));
    assert_eq!("rust", to_lowercase("rUsT"));
    assert_eq!("hello, world 123", to_lowercase("Hello, World 123"));
    assert_eq!("\u{e4}pfel", to_lowercase("\u{c4}PFEL"));
    assert_eq!("\u{3b1}\u{3c2}", to_lowercase("\u{391}\u{3a3}"));
    assert_eq!("\u{3b1}\u{3c3}\u{3b1}", to_lowercase("\u{391}\u{3a3}\u{391}"));
    assert_eq!("i\u{307}", to_lowercase("\u{130}"));
}

#[test]
fn case_insensitive_beyond_ascii() {
    let contents = "\u{c4}pfel und Birnen\nnur birnen\n\u{e4}PFELMUS";
    assert_eq!(
        vec!["\u{c4}pfel und Birnen", "\u{e4}PFELMUS"],
        search_case_insensitive("\u{c4}PFEL", contents)
    );
    assert_eq!(
        vec!["\u{c4}pfel und Birnen"],
        search_case_sensitive("\u{c4}pfel", contents)
    );
}

#[test]
fn matches_come_back_as_written() {
    let contents = "MiXeD CaSe\nlower case\nUPPER CASE";
    assert_eq!(
        vec!["MiXeD CaSe", "lower case", "UPPER CASE"],
        search_case_insensitive("case", contents)
    );
}

#[test]
fn final_sigma_can_hide_a_match_from_the_insensitive_search() {
    let query = "\u{391}\u{3a3}";
    let contents = "\u{391}\u{3a3}\u{391}";
    assert_eq!(vec![contents], search_case_sensitive(query, contents));
    assert_eq!(Vec::<&str>::new(), search_case_insensitive(query, contents));
}

#[test]
fn lowercase_can_lengthen_a_line_up_to_the_query() {
    let query = "i\u{307}";
    let contents = "\u{130}";
    assert!(query.chars().count() > contents.chars().count());
    assert!(query.len() > contents.len());
    assert_eq!(Vec::<&str>::new(), search_case_sensitive(query, contents));
    assert_eq!(vec![contents], search_case_insensitive(query, contents));
}
