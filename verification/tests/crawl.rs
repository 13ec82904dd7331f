use gopher_crawler::crawler::{
    download_file, CrawlAction, CrawlEvent, Crawler, Place, DEFAULT_SERVER_NAME,
    DEFAULT_SERVER_PORT,
};
use gopher_crawler::gopher::response::{ItemType, Response, ResponseOutcome};
use gopher_crawler::gopher::{send_and_recv, WireAction, WireEvent, MAX_CHUNK_SIZE};
use gopher_crawler::gopher::request::Request;
use std::rc::Rc;

const ORIGIN: &str = "origin.test";

/// A server landscape: what each selector of each server sends back, how
/// many seconds each read takes, and which external servers accept a
/// connection.
struct World {
    pages: Vec<(String, String, Vec<u8>)>,
    seconds_per_read: u64,
    chunk: usize,
    reachable: Vec<(String, u16)>,
    fetched: Vec<(String, String)>,
    probed: Vec<(String, u16)>,
    stored: Vec<(String, Vec<u8>)>,
}

impl World {
    fn new() -> World {
        World {
            pages: Vec::new(),
            seconds_per_read: 0,
            chunk: MAX_CHUNK_SIZE,
            reachable: Vec::new(),
            fetched: Vec::new(),
            probed: Vec::new(),
            stored: Vec::new(),
        }
    }

    fn page(mut self, server: &str, selector: &str, bytes: &[u8]) -> World {
        self.pages.push((server.to_string(), selector.to_string(), bytes.to_vec()));
        self
    }

    fn reachable(mut self, host: &str, port: u16) -> World {
        self.reachable.push((host.to_string(), port));
        self
    }

    fn exchange(&mut self, request: &Request) -> Response {
        self.fetched.push((request.server_details.to_string(), request.selector.to_string()));
        let served = self
            .pages
            .iter()
            .find(|(server, selector, _)| {
                server == request.server_details.as_str() && selector == request.selector.as_str()
            })
            .map(|(_, _, bytes)| bytes.clone());
        let (mut exchange, mut action) = send_and_recv(request);
        let mut offset = 0;
        let mut elapsed = 0;
        loop {
            let event = match action {
                WireAction::Connect(_) => match served {
                    Some(_) => WireEvent::Connected,
                    None => WireEvent::ConnectFailed,
                },
                WireAction::Send(bytes) => {
                    assert_eq!(bytes, format!("{}\r\n", request.selector).into_bytes());
                    WireEvent::Sent
                }
                WireAction::Receive => {
                    let data = served.as_ref().unwrap();
                    let end = usize::min(offset + self.chunk, data.len());
                    let chunk = data[offset..end].to_vec();
                    offset = end;
                    elapsed += self.seconds_per_read;
                    WireEvent::Read { chunk, elapsed_secs: elapsed }
                }
                WireAction::Finish(response) => return response,
                WireAction::Fail => panic!("the exchange failed"),
            };
            action = exchange.advance(event);
        }
    }

    fn crawl(&mut self, crawler: &mut Crawler) -> CrawlAction {
        let mut action = crawler.start_crawl();
        loop {
            let event = match action {
                CrawlAction::Fetch(request) => CrawlEvent::Fetched(self.exchange(&request)),
                CrawlAction::Connect(host, port) => {
                    self.probed.push((host.to_string(), port));
                    let up = self.reachable.iter().any(|(h, p)| h == host.as_str() && *p == port);
                    CrawlEvent::Probed(up)
                }
                CrawlAction::Download { file_name, contents } => {
                    let size = contents.len() as u64;
                    self.stored.push((file_name, contents));
                    CrawlEvent::Stored(size)
                }
                CrawlAction::Done => return CrawlAction::Done,
                CrawlAction::Abort => return CrawlAction::Abort,
            };
            action = crawler.step(event);
        }
    }
}

fn origin_crawler() -> Crawler {
    Crawler::new(Some(ORIGIN.to_string()), Some(70))
}

fn place(host: &str, port: u16, selector: &str) -> Place {
    (Rc::new(host.to_string()), port, Rc::new(selector.to_string()))
}

fn server(port: u16) -> String {
    format!("{}:{}", ORIGIN, port)
}

fn check_invariants(crawler: &Crawler) {
    let lists = [crawler.dirs(), crawler.txt_files(), crawler.bin_files()];
    for list in lists {
        for (host, port, selector) in list.iter() {
            assert!(crawler.has_crawled(host, *port, selector));
        }
    }
    assert_eq!(crawler.dirs().len(), crawler.ndir());
    assert_eq!(crawler.txt_files().len(), crawler.ntxt());
    assert_eq!(crawler.bin_files().len(), crawler.nbin());
    if crawler.ntxt() > 0 {
        assert!(crawler.smallest_txt() <= crawler.largest_txt());
    }
    if crawler.nbin() > 0 {
        assert!(crawler.smallest_bin() <= crawler.largest_bin());
    }
    let servers = crawler.external_servers();
    for (i, (host, port, _)) in servers.iter().enumerate() {
        assert!(
            host.as_str() != crawler.root_server_name().as_str()
                || *port != crawler.root_server_port()
        );
        for (other_host, other_port, _) in servers[..i].iter() {
            assert!(host != other_host || port != other_port);
        }
    }
    for extreme in [
        crawler.smallest_txt_selector(),
        crawler.largest_txt_selector(),
    ] {
        if let Some(found) = extreme {
            assert!(crawler.txt_files().contains(found));
        }
    }
    for extreme in [
        crawler.smallest_bin_selector(),
        crawler.largest_bin_selector(),
    ] {
        if let Some(found) = extreme {
            assert!(crawler.bin_files().contains(found));
        }
    }
}

#[test]
fn defaults() {
    let crawler = Crawler::new(None, None);
    assert_eq!(crawler.root_server_name().as_str(), "comp3310.ddns.net");
    assert_eq!(crawler.root_server_port(), 70);
    assert_eq!(DEFAULT_SERVER_NAME, "comp3310.ddns.net");
    assert_eq!(DEFAULT_SERVER_PORT, 70);
    let crawler = Crawler::default();
    assert_eq!(crawler.root_server_name().as_str(), "comp3310.ddns.net");
    assert_eq!(crawler.root_server_port(), 70);
    let crawler = Crawler::new(Some("h".to_string()), None);
    assert_eq!(crawler.root_server_name().as_str(), "h");
    assert_eq!(crawler.root_server_port(), 70);
    let crawler = Crawler::new(None, Some(7070));
    assert_eq!(crawler.root_server_name().as_str(), "comp3310.ddns.net");
    assert_eq!(crawler.root_server_port(), 7070);
}

#[test]
fn fresh_crawler_has_nothing() {
    let crawler = origin_crawler();
    assert_eq!(crawler.ndir(), 0);
    assert_eq!(crawler.ntxt(), 0);
    assert_eq!(crawler.nbin(), 0);
    assert_eq!(crawler.nerr(), 0);
    assert_eq!(crawler.smallest_txt(), u64::MAX);
    assert_eq!(crawler.smallest_bin(), u64::MAX);
    assert_eq!(crawler.largest_txt(), 0);
    assert_eq!(crawler.largest_bin(), 0);
    assert_eq!(crawler.smallest_contents(), "");
    assert!(crawler.smallest_txt_selector().is_none());
    assert!(crawler.largest_bin_selector().is_none());
    assert!(crawler.external_servers().is_empty());
    assert!(crawler.invalid_references().is_empty());
    assert!(!crawler.has_crawled(&ORIGIN.to_string(), 70, &String::new()));
    assert!(!crawler.is_finished());
    check_invariants(&crawler);
}

#[test]
fn start_asks_for_the_root_menu() {
    let mut crawler = origin_crawler();
    match crawler.start_crawl() {
        CrawlAction::Fetch(request) => {
            assert_eq!(request.selector.as_str(), "");
            assert_eq!(request.server_details.as_str(), "origin.test:70");
            assert_eq!(request.item_type, ItemType::Directory);
        }
        other => panic!("{:?}", other),
    }
    assert!(crawler.has_crawled(&ORIGIN.to_string(), 70, &String::new()));
}

#[test]
fn single_directory_origin_with_empty_menu() {
    let mut world = World::new().page(&server(70), "", b".\r\n");
    let mut crawler = origin_crawler();
    assert!(matches!(world.crawl(&mut crawler), CrawlAction::Done));
    assert_eq!(crawler.ndir(), 1);
    assert_eq!(crawler.dirs(), &vec![place(ORIGIN, 70, "")]);
    assert_eq!(crawler.ntxt(), 0);
    assert_eq!(crawler.nbin(), 0);
    assert_eq!(crawler.nerr(), 0);
    assert!(crawler.invalid_references().is_empty());
    assert!(crawler.external_servers().is_empty());
    assert_eq!(crawler.smallest_txt(), u64::MAX);
    assert_eq!(crawler.largest_txt(), 0);
    assert!(crawler.is_finished());
    check_invariants(&crawler);
}

#[test]
fn one_text_file() {
    let mut world = World::new()
        .page(&server(70), "", b"0File\t/file\torigin.test\t70\r\n.\r\n")
        .page(&server(70), "/file", b"hi\n.\r\n");
    let mut crawler = origin_crawler();
    assert!(matches!(world.crawl(&mut crawler), CrawlAction::Done));
    assert_eq!(crawler.ntxt(), 1);
    assert_eq!(crawler.smallest_txt(), 3);
    assert_eq!(crawler.largest_txt(), 3);
    assert_eq!(crawler.smallest_contents(), "hi\n");
    assert_eq!(crawler.txt_files(), &vec![place(ORIGIN, 70, "/file")]);
    assert_eq!(crawler.smallest_txt_selector(), &Some(place(ORIGIN, 70, "/file")));
    assert_eq!(crawler.largest_txt_selector(), &Some(place(ORIGIN, 70, "/file")));
    assert_eq!(crawler.ndir(), 1);
    assert_eq!(crawler.nbin(), 0);
    assert!(crawler.invalid_references().is_empty());
    assert_eq!(world.stored, vec![("file".to_string(), b"hi\n".to_vec())]);
    check_invariants(&crawler);
}

#[test]
fn cycle_is_entered_once() {
    let mut world = World::new()
        .page(&server(70), "", b"1A\t/a\torigin.test\t70\r\n.\r\n")
        .page(&server(70), "/a", b"1A again\t/a\torigin.test\t70\r\n1Root\t\torigin.test\t70\r\n.\r\n");
    let mut crawler = origin_crawler();
    assert!(matches!(world.crawl(&mut crawler), CrawlAction::Done));
    assert_eq!(
        world.fetched,
        vec![(server(70), String::new()), (server(70), "/a".to_string())]
    );
    assert_eq!(crawler.ndir(), 2);
    assert_eq!(crawler.dirs(), &vec![place(ORIGIN, 70, "/a"), place(ORIGIN, 70, "")]);
    assert!(crawler.invalid_references().is_empty());
    check_invariants(&crawler);
}

#[test]
fn diamond_is_entered_once() {
    let mut world = World::new()
        .page(&server(70), "", b"1A\t/a\torigin.test\t70\r\n1B\t/b\torigin.test\t70\r\n.\r\n")
        .page(&server(70), "/a", b"1C\t/c\torigin.test\t70\r\n.\r\n")
        .page(&server(70), "/b", b"1C\t/c\torigin.test\t70\r\n.\r\n")
        .page(&server(70), "/c", b".\r\n");
    let mut crawler = origin_crawler();
    assert!(matches!(world.crawl(&mut crawler), CrawlAction::Done));
    let selectors: Vec<&str> = world.fetched.iter().map(|(_, s)| s.as_str()).collect();
    assert_eq!(selectors, vec!["", "/a", "/c", "/b"]);
    assert_eq!(crawler.ndir(), 4);
    assert_eq!(
        crawler.dirs(),
        &vec![
            place(ORIGIN, 70, "/c"),
            place(ORIGIN, 70, "/a"),
            place(ORIGIN, 70, "/b"),
            place(ORIGIN, 70, ""),
        ]
    );
    check_invariants(&crawler);
}

#[test]
fn external_reference_is_tried_and_not_entered() {
    for up in [true, false] {
        let mut world = World::new()
            .page(&server(70), "", b"1Ext\t\tother.example\t70\r\n.\r\n")
            .page("other.example:70", "", b"1Deep\t/deep\tother.example\t70\r\n.\r\n");
        if up {
            world = world.reachable("other.example", 70);
        }
        let mut crawler = origin_crawler();
        assert!(matches!(world.crawl(&mut crawler), CrawlAction::Done));
        assert_eq!(
            crawler.external_servers(),
            &vec![(Rc::new("other.example".to_string()), 70, up)]
        );
        assert_eq!(crawler.ndir(), 1);
        assert_eq!(world.fetched, vec![(server(70), String::new())]);
        assert_eq!(world.probed, vec![("other.example".to_string(), 70)]);
        assert!(!crawler.has_crawled(&"other.example".to_string(), 70, &String::new()));
        check_invariants(&crawler);
    }
}

#[test]
fn each_external_server_is_tried_once() {
    let menu = b"1X\t/x\tother.example\t70\r\n1Y\t/y\tother.example\t70\r\n\
1Z\t/z\tother.example\t7070\r\n1W\t/w\torigin.test\t7070\r\n1X\t/x\tother.example\t70\r\n.\r\n";
    let mut world = World::new().page(&server(70), "", menu).reachable("other.example", 7070);
    let mut crawler = origin_crawler();
    assert!(matches!(world.crawl(&mut crawler), CrawlAction::Done));
    assert_eq!(
        crawler.external_servers(),
        &vec![
            (Rc::new("other.example".to_string()), 70, false),
            (Rc::new("other.example".to_string()), 7070, true),
            (Rc::new("origin.test".to_string()), 7070, false),
        ]
    );
    assert_eq!(world.probed.len(), 3);
    assert_eq!(crawler.ndir(), 1);
    check_invariants(&crawler);
}

#[test]
fn malformed_line_is_entered_and_the_crawl_goes_on() {
    let mut world = World::new()
        .page(&server(70), "", b"0Broken\tsel\t\t70\r\n0File\t/file\torigin.test\t70\r\n.\r\n")
        .page(&server(70), "/file", b"ok.\r\n");
    let mut crawler = origin_crawler();
    assert!(matches!(world.crawl(&mut crawler), CrawlAction::Done));
    assert_eq!(
        crawler.invalid_references(),
        &vec![(":70 sel".to_string(), ResponseOutcome::MalformedResponseLine)]
    );
    assert_eq!(
        world.fetched,
        vec![(server(70), String::new()), (server(70), "/file".to_string())]
    );
    assert_eq!(crawler.ntxt(), 1);
    assert_eq!(crawler.ndir(), 1);
    check_invariants(&crawler);
}

#[test]
fn every_kind_of_malformed_line_is_entered() {
    let menu = b"no tabs here\r\n\tsel\thost\t70\r\n0a\tsel\t\t70\r\n0b\tsel\thost\tport\r\n\r\n.\r\n";
    let mut world = World::new().page(&server(70), "", menu);
    let mut crawler = origin_crawler();
    assert!(matches!(world.crawl(&mut crawler), CrawlAction::Done));
    let malformed = ResponseOutcome::MalformedResponseLine;
    assert_eq!(
        crawler.invalid_references(),
        &vec![
            ("no tabs here".to_string(), malformed),
            ("\tsel\thost\t70".to_string(), malformed),
            (":70 sel".to_string(), malformed),
            ("host:port sel".to_string(), malformed),
        ]
    );
    assert_eq!(world.fetched.len(), 1);
    assert_eq!(crawler.ndir(), 1);
}

#[test]
fn oversized_file_is_entered_and_not_listed() {
    let mut world = World::new()
        .page(&server(70), "", b"9Big\t/big\torigin.test\t70\r\n.\r\n")
        .page(&server(70), "/big", b"123456");
    let mut crawler = origin_crawler();
    let mut action = crawler.start_crawl();
    let request = match action {
        CrawlAction::Fetch(request) => request,
        other => panic!("{:?}", other),
    };
    action = crawler.step(CrawlEvent::Fetched(world.exchange(&request)));
    let request = match action {
        CrawlAction::Fetch(request) => request,
        other => panic!("{:?}", other),
    };
    assert_eq!(request.item_type, ItemType::Binary);
    world.seconds_per_read = 1;
    world.chunk = 1;
    let response = world.exchange(&request);
    assert_eq!(response.response_outcome, ResponseOutcome::FileTooLong);
    assert_eq!(response.buffer, b"12345".to_vec());
    action = crawler.step(CrawlEvent::Fetched(response));
    assert!(matches!(action, CrawlAction::Done));
    assert_eq!(
        crawler.invalid_references(),
        &vec![("origin.test:70 /big".to_string(), ResponseOutcome::FileTooLong)]
    );
    assert_eq!(crawler.nbin(), 0);
    assert!(crawler.bin_files().is_empty());
    assert_eq!(crawler.ndir(), 1);
    assert!(world.stored.is_empty());
    check_invariants(&crawler);
}

#[test]
fn menu_without_terminator_is_entered_and_the_parent_goes_on() {
    let mut world = World::new()
        .page(&server(70), "", b"1A\t/a\torigin.test\t70\r\n1B\t/b\torigin.test\t70\r\n.\r\n")
        .page(&server(70), "/a", b"1C\t/c\torigin.test\t70\r\n")
        .page(&server(70), "/b", b".\r\n");
    let mut crawler = origin_crawler();
    assert!(matches!(world.crawl(&mut crawler), CrawlAction::Done));
    assert_eq!(
        crawler.invalid_references(),
        &vec![("origin.test:70 /a".to_string(), ResponseOutcome::MissingEndLine)]
    );
    assert_eq!(crawler.dirs(), &vec![place(ORIGIN, 70, "/b"), place(ORIGIN, 70, "")]);
    assert_eq!(crawler.ndir(), 2);
    assert!(crawler.has_crawled(&ORIGIN.to_string(), 70, &"/a".to_string()));
    assert!(!crawler.has_crawled(&ORIGIN.to_string(), 70, &"/c".to_string()));
    check_invariants(&crawler);
}

#[test]
fn unreachable_origin_is_entered() {
    let mut world = World::new();
    let mut crawler = origin_crawler();
    assert!(matches!(world.crawl(&mut crawler), CrawlAction::Done));
    assert_eq!(
        crawler.invalid_references(),
        &vec![("origin.test:70 ".to_string(), ResponseOutcome::ConnectionFailed)]
    );
    assert_eq!(crawler.ndir(), 0);
    check_invariants(&crawler);
}

#[test]
fn failed_reference_is_not_tried_again() {
    let mut world = World::new().page(
        &server(70),
        "",
        b"0Gone\t/gone\torigin.test\t70\r\n0Gone\t/gone\torigin.test\t70\r\n.\r\n",
    );
    let mut crawler = origin_crawler();
    assert!(matches!(world.crawl(&mut crawler), CrawlAction::Done));
    assert_eq!(world.fetched.len(), 2);
    assert_eq!(crawler.invalid_references().len(), 1);
    assert_eq!(crawler.ntxt(), 0);
}

#[test]
fn error_items_are_counted_and_nothing_else() {
    let mut world = World::new().page(
        &server(70),
        "",
        b"3Not found\t/x\torigin.test\t70\r\n3Nope\t\terror.host\t1\r\niInfo\t\t(NULL)\t0\r\n.\r\n",
    );
    let mut crawler = origin_crawler();
    assert!(matches!(world.crawl(&mut crawler), CrawlAction::Done));
    assert_eq!(crawler.nerr(), 2);
    assert_eq!(crawler.ndir(), 1);
    assert_eq!(crawler.ntxt(), 0);
    assert_eq!(crawler.nbin(), 0);
    assert!(crawler.invalid_references().is_empty());
    assert!(crawler.external_servers().is_empty());
    assert_eq!(world.fetched.len(), 1);
    assert!(world.probed.is_empty());
    assert!(!crawler.has_crawled(&ORIGIN.to_string(), 70, &"/x".to_string()));
}

#[test]
fn files_are_fetched_from_any_server() {
    let mut world = World::new()
        .page(&server(70), "", b"0Far\t/far\tother.example\t70\r\n.\r\n")
        .page("other.example:70", "/far", b"far away.\r\n");
    let mut crawler = origin_crawler();
    assert!(matches!(world.crawl(&mut crawler), CrawlAction::Done));
    assert_eq!(crawler.txt_files(), &vec![place("other.example", 70, "/far")]);
    assert!(crawler.external_servers().is_empty());
    check_invariants(&crawler);
}

#[test]
fn empty_file_sets_both_extremes_to_zero() {
    let mut world = World::new()
        .page(&server(70), "", b"0E\t/e\torigin.test\t70\r\n9Z\t/z\torigin.test\t70\r\n.\r\n")
        .page(&server(70), "/e", b".\r\n")
        .page(&server(70), "/z", b"");
    let mut crawler = origin_crawler();
    assert!(matches!(world.crawl(&mut crawler), CrawlAction::Done));
    assert_eq!(crawler.ntxt(), 1);
    assert_eq!(crawler.smallest_txt(), 0);
    assert_eq!(crawler.largest_txt(), 0);
    assert_eq!(crawler.smallest_contents(), "");
    assert_eq!(crawler.smallest_txt_selector(), &Some(place(ORIGIN, 70, "/e")));
    assert_eq!(crawler.largest_txt_selector(), &None);
    assert_eq!(crawler.nbin(), 1);
    assert_eq!(crawler.smallest_bin(), 0);
    assert_eq!(crawler.largest_bin(), 0);
    check_invariants(&crawler);
}

#[test]
fn equal_size_does_not_replace_the_smallest_text() {
    let mut world = World::new()
        .page(
            &server(70),
            "",
            b"0A\t/a\torigin.test\t70\r\n0B\t/b\torigin.test\t70\r\n0C\t/c\torigin.test\t70\r\n\
0D\t/d\torigin.test\t70\r\n.\r\n",
        )
        .page(&server(70), "/a", b"first.\r\n")
        .page(&server(70), "/b", b"other.\r\n")
        .page(&server(70), "/c", b"tiny.\r\n")
        .page(&server(70), "/d", b"much longer.\r\n");
    let mut crawler = origin_crawler();
    let mut action = crawler.start_crawl();
    let mut seen = Vec::new();
    loop {
        let event = match action {
            CrawlAction::Fetch(request) => CrawlEvent::Fetched(world.exchange(&request)),
            CrawlAction::Download { contents, .. } => CrawlEvent::Stored(contents.len() as u64),
            CrawlAction::Done => break,
            other => panic!("{:?}", other),
        };
        action = crawler.step(event);
        seen.push((crawler.ntxt(), crawler.smallest_contents().clone(), crawler.smallest_txt()));
    }
    let after = |n: usize| seen.iter().find(|(count, _, _)| *count == n).unwrap().clone();
    assert_eq!(after(1), (1, "first".to_string(), 5));
    assert_eq!(after(2), (2, "first".to_string(), 5));
    assert_eq!(after(3), (3, "tiny".to_string(), 4));
    assert_eq!(after(4), (4, "tiny".to_string(), 4));
    assert_eq!(crawler.smallest_txt_selector(), &Some(place(ORIGIN, 70, "/c")));
    assert_eq!(crawler.largest_txt(), 11);
    assert_eq!(crawler.largest_txt_selector(), &Some(place(ORIGIN, 70, "/d")));
    check_invariants(&crawler);
}

#[test]
fn size_comes_from_the_file_written() {
    let mut crawler = origin_crawler();
    let mut action = crawler.start_crawl();
    assert!(matches!(action, CrawlAction::Fetch(_)));
    action = crawler.step(CrawlEvent::Fetched(Response::new(
        b"9Bin\t/bin\torigin.test\t70\r\n".to_vec(),
        ResponseOutcome::Complete,
    )));
    assert!(matches!(action, CrawlAction::Fetch(_)));
    action = crawler.step(CrawlEvent::Fetched(Response::new(
        vec![0xff, 0x00, 0x01],
        ResponseOutcome::Complete,
    )));
    match action {
        CrawlAction::Download { file_name, contents } => {
            assert_eq!(file_name, "bin");
            assert_eq!(contents, vec![0xff, 0x00, 0x01]);
        }
        other => panic!("{:?}", other),
    }
    assert_eq!(crawler.nbin(), 0);
    action = crawler.step(CrawlEvent::Stored(4096));
    assert!(matches!(action, CrawlAction::Done));
    assert_eq!(crawler.nbin(), 1);
    assert_eq!(crawler.smallest_bin(), 4096);
    assert_eq!(crawler.largest_bin(), 4096);
    assert_eq!(crawler.smallest_bin_selector(), &Some(place(ORIGIN, 70, "/bin")));
}

#[test]
fn menu_that_is_not_utf8_gives_the_crawl_up() {
    let mut crawler = origin_crawler();
    crawler.start_crawl();
    let action = crawler.step(CrawlEvent::Fetched(Response::new(
        vec![b'1', 0xff, b'\t'],
        ResponseOutcome::Complete,
    )));
    assert!(matches!(action, CrawlAction::Abort));
    assert!(matches!(crawler.step(CrawlEvent::Probed(true)), CrawlAction::Abort));
    assert!(!crawler.is_finished());
    assert_eq!(crawler.ndir(), 0);
}

#[test]
fn smallest_text_that_is_not_utf8_gives_the_crawl_up() {
    let mut crawler = origin_crawler();
    crawler.start_crawl();
    crawler.step(CrawlEvent::Fetched(Response::new(
        b"0T\t/t\torigin.test\t70\r\n".to_vec(),
        ResponseOutcome::Complete,
    )));
    let action = crawler.step(CrawlEvent::Fetched(Response::new(
        vec![0xff, 0xfe],
        ResponseOutcome::Complete,
    )));
    assert!(matches!(action, CrawlAction::Download { .. }));
    assert!(matches!(crawler.step(CrawlEvent::Stored(2)), CrawlAction::Abort));
    assert_eq!(crawler.ntxt(), 0);
}

#[test]
fn event_out_of_turn_gives_the_crawl_up() {
    let mut crawler = origin_crawler();
    assert!(matches!(crawler.step(CrawlEvent::Probed(true)), CrawlAction::Abort));
    let mut crawler = origin_crawler();
    crawler.start_crawl();
    assert!(matches!(crawler.step(CrawlEvent::Stored(1)), CrawlAction::Abort));
    let mut crawler = origin_crawler();
    crawler.start_crawl();
    assert!(matches!(crawler.start_crawl(), CrawlAction::Abort));
}

#[test]
fn finished_crawl_stays_finished() {
    let mut world = World::new().page(&server(70), "", b".\r\n");
    let mut crawler = origin_crawler();
    world.crawl(&mut crawler);
    assert!(matches!(crawler.step(CrawlEvent::Probed(true)), CrawlAction::Done));
    assert!(matches!(crawler.step(CrawlEvent::Stored(9)), CrawlAction::Done));
    assert!(crawler.is_finished());
    assert_eq!(crawler.ndir(), 1);
    assert!(crawler.external_servers().is_empty());
}

#[test]
fn two_crawls_of_the_same_servers_agree() {
    let build = || {
        World::new()
            .page(
                &server(70),
                "",
                b"1A\t/a\torigin.test\t70\r\n0T\t/t\torigin.test\t70\r\n9B\t/b\torigin.test\t70\r\n\
1E\t\text.example\t70\r\n3Err\t\th\t1\r\nbad line\r\n.\r\n",
            )
            .page(&server(70), "/a", b"0T\t/t\torigin.test\t70\r\n0U\t/u\torigin.test\t70\r\n.\r\n")
            .page(&server(70), "/t", b"some text\r\n.\r\n")
            .page(&server(70), "/u", b"u.\r\n")
            .page(&server(70), "/b", b"\x00\x01\x02")
            .reachable("ext.example", 70)
    };
    let mut first = origin_crawler();
    let mut second = origin_crawler();
    build().crawl(&mut first);
    build().crawl(&mut second);
    assert_eq!(first.ndir(), 2);
    assert_eq!(first.ntxt(), 2);
    assert_eq!(first.nbin(), 1);
    assert_eq!(first.nerr(), 1);
    assert_eq!(first.ndir(), second.ndir());
    assert_eq!(first.dirs(), second.dirs());
    assert_eq!(first.txt_files(), second.txt_files());
    assert_eq!(first.bin_files(), second.bin_files());
    assert_eq!(first.external_servers(), second.external_servers());
    assert_eq!(first.invalid_references(), second.invalid_references());
    assert_eq!(first.smallest_txt(), second.smallest_txt());
    assert_eq!(first.largest_txt(), second.largest_txt());
    assert_eq!(first.smallest_bin(), second.smallest_bin());
    assert_eq!(first.largest_bin(), second.largest_bin());
    assert_eq!(first.smallest_contents(), second.smallest_contents());
    assert_eq!(first.smallest_txt_selector(), second.smallest_txt_selector());
    assert_eq!(first.report(), second.report());
    assert_eq!(first.smallest_contents(), "u");
    check_invariants(&first);
}

#[test]
fn file_names() {
    assert_eq!(download_file("/file"), "file");
    assert_eq!(download_file("/docs/a/b.txt"), "docs-a-b.txt");
    assert_eq!(download_file("file"), "file");
    assert_eq!(download_file("a/b"), "a-b");
    assert_eq!(download_file("//x"), "-x");
    assert_eq!(download_file("/"), "");
    assert_eq!(download_file(""), "");
    let long = format!("/{}", "x".repeat(300));
    assert_eq!(download_file(&long), "x".repeat(255));
    let exact = format!("/{}", "y".repeat(255));
    assert_eq!(download_file(&exact), "y".repeat(255));
    let wide = "é".repeat(256);
    assert_eq!(download_file(&wide), "é".repeat(255));
}
