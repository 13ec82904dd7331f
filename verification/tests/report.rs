use gopher_crawler::crawler::{CrawlAction, CrawlEvent, Crawler};
use gopher_crawler::gopher::response::{Response, ResponseOutcome};
use gopher_crawler::journal::{connecting, external, requesting, stamp, stamp_now};
use gopher_crawler::order::{join, rank, sort_alphabetically, sort_by_keys, text_le};
use gopher_crawler::text::chars_of;

fn strings(items: &[&str]) -> Vec<String> {
    items.iter().map(|s| s.to_string()).collect()
}

fn complete(bytes: &[u8]) -> CrawlEvent {
    CrawlEvent::Fetched(Response::new(bytes.to_vec(), ResponseOutcome::Complete))
}

#[test]
fn dictionary_order() {
    let le = |a: &str, b: &str| text_le(&chars_of(a), &chars_of(b));
    assert!(le("", ""));
    assert!(le("", "a"));
    assert!(!le("a", ""));
    assert!(le("a", "a"));
    assert!(le("a", "ab"));
    assert!(!le("ab", "a"));
    assert!(le("ab", "b"));
    assert!(!le("b", "ab"));
    assert!(le("B", "a"));
    assert!(!le("a", "B"));
    assert!(le("z", "é"));
    let samples = ["", "a", "A", "ab", "b", "é", "z", "zz", "\u{10000}", "\u{ffff}"];
    for a in samples {
        for b in samples {
            assert_eq!(le(a, b), a <= b, "{:?} {:?}", a, b);
        }
    }
}

#[test]
fn ranking_is_stable() {
    let keys: Vec<Vec<char>> = ["b", "a", "b", "a", "c", ""].iter().map(|k| chars_of(k)).collect();
    assert_eq!(rank(&keys), vec![5, 1, 3, 0, 2, 4]);
    assert_eq!(rank(&Vec::new()), Vec::<usize>::new());
}

#[test]
fn sorting_by_keys_moves_lines_with_their_keys() {
    let lines = strings(&["two", "one", "three"]);
    let keys: Vec<Vec<char>> = ["2", "1", "3"].iter().map(|k| chars_of(k)).collect();
    assert_eq!(sort_by_keys(&lines, &keys), strings(&["one", "two", "three"]));
}

#[test]
fn alphabetical_order_takes_upper_and_lower_case_as_one() {
    assert_eq!(sort_alphabetically(&strings(&["a", "B"])), strings(&["a", "B"]));
    assert_eq!(sort_alphabetically(&strings(&["B", "a"])), strings(&["a", "B"]));
    assert_eq!(
        sort_alphabetically(&strings(&["beta", "Alpha", "alpha", "ALPHA", "Gamma", "beta"])),
        strings(&["Alpha", "alpha", "ALPHA", "beta", "beta", "Gamma"])
    );
    assert_eq!(sort_alphabetically(&Vec::new()), Vec::<String>::new());
    let lines = strings(&["Zeta", "éclair", "Éclair", "apple", "Apple", "zeta", "10", "9"]);
    let mut expected = lines.clone();
    expected.sort_by(|a, b| a.to_lowercase().cmp(&b.to_lowercase()));
    assert_eq!(sort_alphabetically(&lines), expected);
}

#[test]
fn joining() {
    assert_eq!(join(&Vec::new(), ", "), "");
    assert_eq!(join(&strings(&["a"]), ", "), "a");
    assert_eq!(join(&strings(&["a", "b", "c"]), ", "), "a, b, c");
    assert_eq!(join(&strings(&["", ""]), "-"), "-");
}

#[test]
fn report_of_an_empty_origin() {
    let mut crawler = Crawler::new(Some("origin.test".to_string()), Some(70));
    crawler.start_crawl();
    assert!(matches!(crawler.step(complete(b"")), CrawlAction::Done));
    let expected = "\nSTART CRAWLER REPORT\n\n\
\tNumber of Gopher directories: 1\n\
\t\torigin.test:70: \n\n\
\tNumber of simple text files: 0\n\
\t\t\n\n\
\tNumber of binary files: 0\n\
\t\t\n\n\
\tSmallest text file: : \n\
\t\tSize: 18446744073709551615 bytes\n\
\t\tContents: \n\n\
\tSize of the largest text file: 0 bytes\n\
\t\t: \n\n\
\tSize of the smallest binary file: 18446744073709551615 bytes\n\
\t\t: \n\n\
\tSize of the largest binary file: 0 bytes\n\
\t\t: \n\n\
\tThe number of unique invalid references (error types): 0\n\n\
\tList of external servers:\n\
\t\t\n\n\
\tReferences that have issues/errors:\n\
\t\t\n\n\
END CRAWLER REPORT";
    assert_eq!(crawler.report(), expected);
}

#[test]
fn report_of_a_small_crawl() {
    let mut crawler = Crawler::new(Some("origin.test".to_string()), Some(70));
    crawler.start_crawl();
    let menu = b"0Zed\t/zed\torigin.test\t70\r\n0alpha\t/Alpha\torigin.test\t70\r\n\
9Bin\t/bin\torigin.test\t70\r\n1Up\t\tup.example\t70\r\n1Down\t\tdown.example\t7070\r\n\
3Err\t\th\t1\r\n0Gone\t/gone\torigin.test\t70\r\nbroken\r\n";
    assert!(matches!(crawler.step(complete(menu)), CrawlAction::Fetch(_)));
    assert!(matches!(crawler.step(complete(b"zed zed")), CrawlAction::Download { .. }));
    assert!(matches!(crawler.step(CrawlEvent::Stored(7)), CrawlAction::Fetch(_)));
    assert!(matches!(crawler.step(complete(b"hi\n")), CrawlAction::Download { .. }));
    assert!(matches!(crawler.step(CrawlEvent::Stored(3)), CrawlAction::Fetch(_)));
    assert!(matches!(crawler.step(complete(&[1, 2])), CrawlAction::Download { .. }));
    assert!(matches!(crawler.step(CrawlEvent::Stored(2)), CrawlAction::Connect(_, 70)));
    assert!(matches!(crawler.step(CrawlEvent::Probed(true)), CrawlAction::Connect(_, 7070)));
    assert!(matches!(crawler.step(CrawlEvent::Probed(false)), CrawlAction::Fetch(_)));
    let gone = CrawlEvent::Fetched(Response::new(Vec::new(), ResponseOutcome::Timeout));
    assert!(matches!(crawler.step(gone), CrawlAction::Done));
    let expected = "\nSTART CRAWLER REPORT\n\n\
\tNumber of Gopher directories: 1\n\
\t\torigin.test:70: \n\n\
\tNumber of simple text files: 2\n\
\t\torigin.test:70: /Alpha\n\
\t\torigin.test:70: /zed\n\n\
\tNumber of binary files: 1\n\
\t\torigin.test:70: /bin\n\n\
\tSmallest text file: origin.test:70: /Alpha\n\
\t\tSize: 3 bytes\n\
\t\tContents: hi\n\n\n\
\tSize of the largest text file: 7 bytes\n\
\t\torigin.test:70: /zed\n\n\
\tSize of the smallest binary file: 2 bytes\n\
\t\torigin.test:70: /bin\n\n\
\tSize of the largest binary file: 2 bytes\n\
\t\torigin.test:70: /bin\n\n\
\tThe number of unique invalid references (error types): 1\n\n\
\tList of external servers:\n\
\t\tdown.example:7070 did not connect\n\
\t\tup.example:70 connected successfully\n\n\
\tReferences that have issues/errors:\n\
\t\tConnection timed out origin.test:70 /gone\n\
\t\tMalformed response line broken\n\n\
END CRAWLER REPORT";
    assert_eq!(crawler.report(), expected);
}

#[test]
fn stamped_lines() {
    assert_eq!(stamp(9, 5, 0, "hello"), "[09h05m00s]: hello");
    assert_eq!(stamp(23, 59, 59, ""), "[23h59m59s]: ");
    assert_eq!(stamp(0, 0, 0, "x"), "[00h00m00s]: x");
    assert_eq!(stamp(100, 7, 60, "x"), "[100h07m60s]: x");
}

#[test]
fn messages() {
    assert_eq!(requesting("/docs", "origin.test:70"), "REQUESTING /docs FROM origin.test:70");
    assert_eq!(requesting("", "h:1"), "REQUESTING  FROM h:1");
    assert_eq!(connecting("origin.test:70"), "CONNECTING TO origin.test:70");
    assert_eq!(external("other.example", 70, true), "CONNECTED TO EXTERNAL other.example ON 70");
    assert_eq!(
        external("other.example", 7070, false),
        "FAILED TO CONNECT TO EXTERNAL other.example ON 7070"
    );
}

#[test]
fn line_stamped_now_shows_a_time_of_day() {
    let line = stamp_now("REQUESTING  FROM h:1");
    let chars: Vec<char> = line.chars().collect();
    assert_eq!(chars.len(), "[00h00m00s]: REQUESTING  FROM h:1".len());
    assert_eq!(chars[0], '[');
    assert_eq!(chars[3], 'h');
    assert_eq!(chars[6], 'm');
    assert_eq!(chars[9], 's');
    assert_eq!(&line[10..], "]: REQUESTING  FROM h:1");
    let number = |at: usize| line[at..at + 2].parse::<u32>().unwrap();
    assert!(number(1) <= 23);
    assert!(number(4) <= 59);
    assert!(number(7) <= 59);
}
