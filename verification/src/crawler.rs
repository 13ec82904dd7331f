//! The traversal controller: a depth-first crawl of one origin server,
//! driven by the outcomes of the requests it asks for.
//!
//! The crawler never touches a socket or a file. It says what it needs
//! next, a [`CrawlAction`], and is told what came of it, a [`CrawlEvent`].

pub mod laws;
pub mod model;
pub mod replay;
pub mod report;

use crate::gopher::request::{format_server_details, Request};
use crate::gopher::response::{
    lines_view, menu_lines, parsed_view, ItemType, Response, ResponseLine, ResponseLineError,
    ResponseOutcome,
};
use crate::text::from_utf8;
use laws::{inv, lemma_absorbed, lemma_initial, lemma_moved, lemma_resumed, lemma_started};
use model::{
    aborted, absorbed, begun, dir_handled, failed, file_handled, file_name, initial,
    known_external, lemma_line_processed_stack, lemma_moved_decreases, line_processed, moved,
    observed, recorded, resumed, started, stepped, work_left, CrawlState, Frame, Pending,
    Reference, Step, Tally, MAX_FILENAME_LEN,
};
use std::rc::Rc;
use vstd::prelude::*;
use vstd::utf8::{decode_utf8, encode_utf8_decode_utf8, valid_utf8};

verus! {

/// The origin crawled when none is given.
pub const DEFAULT_SERVER_NAME: &'static str = "comp3310.ddns.net";

/// The port crawled when none is given.
pub const DEFAULT_SERVER_PORT: u16 = 70;

/// A place on a server: host, port and selector.
pub type Place = (Rc<String>, u16, Rc<String>);

/// What happened when the step last asked for was carried out.
#[derive(Debug)]
pub enum CrawlEvent {
    /// The request/response cycle ended with this response.
    Fetched(Response),
    /// The connection attempt succeeded or not.
    Probed(bool),
    /// The contents were written out and the file has this many bytes.
    Stored(u64),
}

/// What the crawler needs next.
#[derive(Debug)]
pub enum CrawlAction {
    /// Carry out one request/response cycle.
    Fetch(Request),
    /// Try once to connect to this server, and send nothing.
    Connect(Rc<String>, u16),
    /// Write `contents` out under `file_name` and report the file's size.
    Download { file_name: String, contents: Vec<u8> },
    /// Nothing: the crawl is complete.
    Done,
    /// Nothing: the crawl was given up.
    Abort,
}

impl View for CrawlAction {
    type V = Step;

    open spec fn view(&self) -> Step {
        match self {
            CrawlAction::Fetch(request) => Step::Fetch {
                server_details: request.server_details@,
                selector: request.selector@,
                item_type: request.item_type,
            },
            CrawlAction::Connect(server_name, server_port) => Step::Connect {
                server_name: server_name@,
                server_port: *server_port,
            },
            CrawlAction::Download { file_name, contents } => Step::Download {
                file_name: file_name@,
                contents: contents@,
            },
            CrawlAction::Done => Step::Done,
            CrawlAction::Abort => Step::Abort,
        }
    }
}

/// The step asked for, if any, as plain values.
pub open spec fn asked(action: Option<CrawlAction>) -> Option<Step> {
    match action {
        Some(action) => Some(action@),
        None => None,
    }
}

/// A place as plain values.
pub open spec fn place_view(p: Place) -> Reference {
    (p.0@, p.1, p.2@)
}

/// Places as plain values.
pub open spec fn places_view(v: Seq<Place>) -> Seq<Reference> {
    v.map_values(|p: Place| place_view(p))
}

/// A place, if any, as plain values.
pub open spec fn some_place_view(p: Option<Place>) -> Option<Reference> {
    match p {
        Some(p) => Some(place_view(p)),
        None => None,
    }
}

/// External servers as plain values.
pub open spec fn servers_view(v: Seq<(Rc<String>, u16, bool)>) -> Seq<(Seq<char>, u16, bool)> {
    v.map_values(|e: (Rc<String>, u16, bool)| (e.0@, e.1, e.2))
}

/// Ledger entries as plain values.
pub open spec fn ledger_view(v: Seq<(String, ResponseOutcome)>) -> Seq<
    (Seq<char>, ResponseOutcome),
> {
    v.map_values(|e: (String, ResponseOutcome)| (e.0@, e.1))
}

/// A second handle on the same place.
fn share(place: &Place) -> (r: Place)
    ensures
        place_view(r) == place_view(*place),
{
    (place.0.clone(), place.1, place.2.clone())
}

/// The files of one kind that were fetched, with the extremes of their sizes.
struct FileStats {
    count: usize,
    files: Vec<Place>,
    sizes: Ghost<Seq<u64>>,
    payloads: Ghost<Seq<Seq<u8>>>,
    smallest_size: u64,
    smallest: Option<Place>,
    largest_size: u64,
    largest: Option<Place>,
}

impl View for FileStats {
    type V = Tally;

    closed spec fn view(&self) -> Tally {
        Tally {
            count: self.count as nat,
            files: places_view(self.files@),
            sizes: self.sizes@,
            payloads: self.payloads@,
            smallest_size: self.smallest_size,
            smallest: some_place_view(self.smallest),
            largest_size: self.largest_size,
            largest: some_place_view(self.largest),
        }
    }
}

impl FileStats {
    /// No files yet.
    fn new() -> (stats: FileStats)
        ensures
            stats@ == model::empty_tally(),
    {
        let stats = FileStats {
            count: 0,
            files: Vec::new(),
            sizes: Ghost(Seq::empty()),
            payloads: Ghost(Seq::empty()),
            smallest_size: u64::MAX,
            smallest: None,
            largest_size: 0,
            largest: None,
        };
        assert(places_view(stats.files@) =~= Seq::<Reference>::empty());
        stats
    }

    /// A file of `size` bytes joins the tally. Says whether it is now the smallest.
    fn record(&mut self, place: Place, size: u64, payload: Ghost<Seq<u8>>) -> (smallest: bool)
        requires
            old(self)@.count == old(self)@.files.len(),
        ensures
            final(self)@ == recorded(old(self)@, place_view(place), size, payload@),
            smallest == (size < old(self)@.smallest_size),
    {
        self.files.push(share(&place));
        let held = self.files.len();
        assert(self.count < held);
        self.count = self.count + 1;
        self.sizes = Ghost(self.sizes@.push(size));
        self.payloads = Ghost(self.payloads@.push(payload@));
        assert(places_view(self.files@) =~= places_view(old(self).files@).push(place_view(place)));
        if size > self.largest_size {
            self.largest_size = size;
            self.largest = Some(share(&place));
        }
        if size < self.smallest_size {
            self.smallest_size = size;
            self.smallest = Some(place);
            true
        } else {
            false
        }
    }
}

/// A directory whose menu is being worked through.
struct Directory {
    place: Place,
    lines: Vec<Result<ResponseLine, ResponseLineError>>,
    next: usize,
}

impl View for Directory {
    type V = Frame;

    closed spec fn view(&self) -> Frame {
        Frame {
            directory: place_view(self.place),
            lines: lines_view(self.lines@),
            next: self.next as nat,
        }
    }
}

/// What the crawler is waiting for.
enum Waiting {
    Idle,
    Running,
    Menu(Place),
    File(Place, ItemType),
    Store(Place, ItemType, Vec<u8>),
    Probe(Rc<String>, u16),
    Finished,
    Aborted,
}

impl View for Waiting {
    type V = Pending;

    closed spec fn view(&self) -> Pending {
        match self {
            Waiting::Idle => Pending::Idle,
            Waiting::Running => Pending::Running,
            Waiting::Menu(place) => Pending::Menu(place_view(*place)),
            Waiting::File(place, item_type) => Pending::File(place_view(*place), *item_type),
            Waiting::Store(place, item_type, payload) => Pending::Store(
                place_view(*place),
                *item_type,
                payload@,
            ),
            Waiting::Probe(server_name, server_port) => Pending::Probe(server_name@, *server_port),
            Waiting::Finished => Pending::Finished,
            Waiting::Aborted => Pending::Aborted,
        }
    }
}

/// Open directories as plain values.
spec fn stack_view(v: Seq<Directory>) -> Seq<Frame> {
    v.map_values(|d: Directory| d@)
}

/// A crawler of one origin server.
pub struct Crawler {
    root_server_name: Rc<String>,
    root_server_port: u16,
    ndir: usize,
    dirs: Vec<Place>,
    text: FileStats,
    binary: FileStats,
    smallest_contents: String,
    nerr: u64,
    external_servers: Vec<(Rc<String>, u16, bool)>,
    invalid_references: Vec<(String, ResponseOutcome)>,
    used: Vec<Place>,
    stack: Vec<Directory>,
    waiting: Waiting,
}

impl View for Crawler {
    type V = CrawlState;

    closed spec fn view(&self) -> CrawlState {
        CrawlState {
            origin_host: self.root_server_name@,
            origin_port: self.root_server_port,
            visited: places_view(self.used@),
            ndir: self.ndir as nat,
            directories: places_view(self.dirs@),
            text: self.text@,
            binary: self.binary@,
            smallest_text_contents: self.smallest_contents@,
            n_errors: self.nerr as nat,
            external_servers: servers_view(self.external_servers@),
            invalid_refs: ledger_view(self.invalid_references@),
            stack: stack_view(self.stack@),
            pending: self.waiting@,
        }
    }
}

/// Pushing onto a vector pushes onto its view.
proof fn lemma_places_push(v: Seq<Place>, p: Place)
    ensures
        places_view(v.push(p)) == places_view(v).push(place_view(p)),
{
    assert(places_view(v.push(p)) =~= places_view(v).push(place_view(p)));
}

/// Whether `a` and `b` hold the same characters.
fn same_text(a: &Rc<String>, b: &Rc<String>) -> (same: bool)
    ensures
        same == (a@ == b@),
{
    **a == **b
}

/// The name under which the contents of `selector` are written out.
pub fn download_file(selector: &str) -> (name: String)
    ensures
        name@ == file_name(selector@),
{
    let chars = crate::text::chars_of(selector);
    let start: usize = if chars.len() > 0 && chars[0] == '/' {
        1
    } else {
        0
    };
    let end: usize = if chars.len() - start > MAX_FILENAME_LEN {
        start + MAX_FILENAME_LEN
    } else {
        chars.len()
    };
    let ghost rest = chars@.subrange(start as int, chars.len() as int);
    let ghost kept = chars@.subrange(start as int, end as int);
    proof {
        if start == 1 {
            assert(rest =~= selector@.drop_first());
        } else {
            assert(rest =~= selector@);
        }
        if rest.len() > MAX_FILENAME_LEN {
            assert(kept =~= rest.take(MAX_FILENAME_LEN as int));
        } else {
            assert(kept =~= rest);
        }
    }
    let mut name = String::new();
    let mut i: usize = start;
    while i < end
        invariant
            start <= i <= end <= chars.len(),
            name@.len() == i - start,
            forall|j: int| 0 <= j < i - start ==> name@[j] == model::dashed(chars@[start + j]),
        decreases end - i,
    {
        let c = chars[i];
        if c == '/' {
            name.push('-');
        } else {
            name.push(c);
        }
        i = i + 1;
    }
    assert(name@ =~= kept.map_values(|c: char| model::dashed(c)));
    name
}

impl Crawler {
    /// The crawler is consistent and waits for an event, or for its start.
    pub open spec fn wf(&self) -> bool {
        inv(self@) && !(self@.pending is Running)
    }

    /// A crawler of `server_name:server_port`, each replaced by its default
    /// where none is given.
    pub fn new(server_name: Option<String>, server_port: Option<u16>) -> (crawler: Crawler)
        ensures
            crawler.wf(),
            crawler@ == initial(
                match server_name {
                    Some(name) => name@,
                    None => DEFAULT_SERVER_NAME@,
                },
                match server_port {
                    Some(port) => port,
                    None => DEFAULT_SERVER_PORT,
                },
            ),
    {
        let name = match server_name {
            Some(name) => name,
            None => DEFAULT_SERVER_NAME.to_owned(),
        };
        let port = match server_port {
            Some(port) => port,
            None => DEFAULT_SERVER_PORT,
        };
        let crawler = Crawler {
            root_server_name: Rc::new(name),
            root_server_port: port,
            ndir: 0,
            dirs: Vec::new(),
            text: FileStats::new(),
            binary: FileStats::new(),
            smallest_contents: String::new(),
            nerr: 0,
            external_servers: Vec::new(),
            invalid_references: Vec::new(),
            used: Vec::new(),
            stack: Vec::new(),
            waiting: Waiting::Idle,
        };
        proof {
            assert(places_view(crawler.used@) =~= Seq::<Reference>::empty());
            assert(places_view(crawler.dirs@) =~= Seq::<Reference>::empty());
            assert(servers_view(crawler.external_servers@) =~= Seq::empty());
            assert(ledger_view(crawler.invalid_references@) =~= Seq::empty());
            assert(stack_view(crawler.stack@) =~= Seq::<Frame>::empty());
            lemma_initial(name@, port);
        }
        crawler
    }

    /// Whether `(server_name, server_port, selector)` has been visited.
    pub fn has_crawled(&self, server_name: &String, server_port: u16, selector: &String) -> (seen:
        bool)
        ensures
            seen == self@.visited.contains((server_name@, server_port, selector@)),
    {
        let ghost r = (server_name@, server_port, selector@);
        let mut i: usize = 0;
        while i < self.used.len()
            invariant
                i <= self.used.len(),
                r == (server_name@, server_port, selector@),
                forall|j: int| 0 <= j < i ==> places_view(self.used@)[j] != r,
            decreases self.used.len() - i,
        {
            let place = &self.used[i];
            if *place.0 == *server_name && place.1 == server_port && *place.2 == *selector {
                assert(places_view(self.used@)[i as int] == r);
                return true;
            }
            i = i + 1;
        }
        false
    }
}

impl Crawler {
    /// Whether an entry for `(server_name, server_port)` is among the external servers.
    fn has_probed(&self, server_name: &Rc<String>, server_port: u16) -> (known: bool)
        ensures
            known == known_external(self@.external_servers, server_name@, server_port),
    {
        let ghost servers = servers_view(self.external_servers@);
        let mut i: usize = 0;
        while i < self.external_servers.len()
            invariant
                i <= self.external_servers.len(),
                servers == servers_view(self.external_servers@),
                forall|j: int|
                    0 <= j < i ==> !((#[trigger] servers[j]).0 == server_name@ && servers[j].1
                        == server_port),
            decreases self.external_servers.len() - i,
        {
            let entry = &self.external_servers[i];
            if same_text(&entry.0, server_name) && entry.1 == server_port {
                assert(servers[i as int].0 == server_name@ && servers[i as int].1 == server_port);
                return true;
            }
            i = i + 1;
        }
        false
    }

    /// Enters `(display, outcome)` in the ledger of invalid references.
    fn record_invalid(&mut self, display: String, outcome: ResponseOutcome)
        ensures
            final(self)@ == (CrawlState {
                invalid_refs: old(self)@.invalid_refs.push((display@, outcome)),
                ..old(self)@
            }),
    {
        self.invalid_references.push((display, outcome));
        assert(ledger_view(self.invalid_references@) =~= ledger_view(
            old(self).invalid_references@,
        ).push((display@, outcome)));
    }

    /// Marks `place` as visited.
    fn mark_visited(&mut self, place: Place)
        ensures
            final(self)@ == (CrawlState {
                visited: old(self)@.visited.push(place_view(place)),
                ..old(self)@
            }),
    {
        proof {
            lemma_places_push(self.used@, place);
        }
        self.used.push(place);
    }

    /// Marks the directory visited and asks for its menu.
    fn crawl(&mut self, selector: Rc<String>, server_name: Rc<String>, server_port: u16) -> (action:
        CrawlAction)
        ensures
            (final(self)@, action@) == begun(old(self)@, (server_name@, server_port, selector@)),
    {
        self.mark_visited((server_name.clone(), server_port, selector.clone()));
        let request = Request::new(
            selector.clone(),
            server_name.clone(),
            server_port,
            ItemType::Directory,
        );
        self.waiting = Waiting::Menu((server_name, server_port, selector));
        CrawlAction::Fetch(request)
    }

    /// A line that points at a directory.
    fn handle_dir(&mut self, response_line: &ResponseLine) -> (action: Option<CrawlAction>)
        ensures
            (final(self)@, asked(action)) == dir_handled(old(self)@, response_line@),
    {
        if !same_text(&response_line.server_name, &self.root_server_name)
            || response_line.server_port != self.root_server_port {
            if self.has_probed(&response_line.server_name, response_line.server_port) {
                return None;
            }
            self.waiting = Waiting::Probe(
                response_line.server_name.clone(),
                response_line.server_port,
            );
            return Some(
                CrawlAction::Connect(response_line.server_name.clone(), response_line.server_port),
            );
        }
        if self.has_crawled(
            &response_line.server_name,
            response_line.server_port,
            &response_line.selector,
        ) {
            return None;
        }
        Some(
            self.crawl(
                response_line.selector.clone(),
                response_line.server_name.clone(),
                response_line.server_port,
            ),
        )
    }

    /// A line that points at a text or binary file.
    fn handle_file(&mut self, response_line: &ResponseLine) -> (action: Option<CrawlAction>)
        ensures
            (final(self)@, asked(action)) == file_handled(old(self)@, response_line@),
    {
        if self.has_crawled(
            &response_line.server_name,
            response_line.server_port,
            &response_line.selector,
        ) {
            return None;
        }
        self.mark_visited(
            (
                response_line.server_name.clone(),
                response_line.server_port,
                response_line.selector.clone(),
            ),
        );
        let request = Request::new(
            response_line.selector.clone(),
            response_line.server_name.clone(),
            response_line.server_port,
            response_line.item_type,
        );
        self.waiting = Waiting::File(
            (
                response_line.server_name.clone(),
                response_line.server_port,
                response_line.selector.clone(),
            ),
            response_line.item_type,
        );
        Some(CrawlAction::Fetch(request))
    }

    /// Gives the crawl up.
    fn abort(&mut self) -> (action: CrawlAction)
        ensures
            final(self)@ == aborted(old(self)@),
            action@ == Step::Abort,
    {
        self.waiting = Waiting::Aborted;
        CrawlAction::Abort
    }

    /// Deals with one menu line.
    fn process_response_line(
        &mut self,
        response_line: &Result<ResponseLine, ResponseLineError>,
    ) -> (action: Option<CrawlAction>)
        ensures
            (final(self)@, asked(action)) == line_processed(
                old(self)@,
                parsed_view(*response_line),
            ),
    {
        match response_line {
            Ok(response_line) => match response_line.item_type {
                ItemType::Text => self.handle_file(response_line),
                ItemType::Directory => self.handle_dir(response_line),
                ItemType::Error => {
                    if self.nerr < u64::MAX {
                        self.nerr = self.nerr + 1;
                        None
                    } else {
                        Some(self.abort())
                    }
                },
                ItemType::Binary => self.handle_file(response_line),
                ItemType::Unknown => None,
            },
            Err(error) => match error {
                ResponseLineError::Empty => None,
                ResponseLineError::InvalidParts(line) => {
                    self.record_invalid(line.clone(), ResponseOutcome::MalformedResponseLine);
                    None
                },
                ResponseLineError::EmptyDisplayString(line) => {
                    self.record_invalid(line.clone(), ResponseOutcome::MalformedResponseLine);
                    None
                },
                ResponseLineError::EmptyHost(server_name, server_port, selector) => {
                    let display = malformed_display(server_name, server_port, selector);
                    self.record_invalid(display, ResponseOutcome::MalformedResponseLine);
                    None
                },
                ResponseLineError::NonIntPort(server_name, server_port, selector) => {
                    let display = malformed_display(server_name, server_port, selector);
                    self.record_invalid(display, ResponseOutcome::MalformedResponseLine);
                    None
                },
            },
        }
    }
}

impl Crawler {
    /// One move through the menus.
    fn advance(&mut self) -> (action: Option<CrawlAction>)
        requires
            inv(old(self)@),
        ensures
            (final(self)@, asked(action)) == moved(old(self)@),
    {
        let ghost before = self@;
        match self.stack.pop() {
            None => {
                assert(stack_view(self.stack@) =~= before.stack);
                self.waiting = Waiting::Finished;
                Some(CrawlAction::Done)
            },
            Some(top) => {
                let mut top = top;
                let ghost popped = self@;
                proof {
                    assert(stack_view(self.stack@) =~= before.stack.drop_last());
                    assert(top@ == before.stack.last());
                }
                if top.next >= top.lines.len() {
                    proof {
                        lemma_places_push(self.dirs@, top.place);
                    }
                    self.dirs.push(top.place);
                    let held = self.dirs.len();
                    assert(self.ndir < held);
                    self.ndir = self.ndir + 1;
                    None
                } else {
                    let action = self.process_response_line(&top.lines[top.next]);
                    let ghost line = lines_view(top.lines@)[top.next as int];
                    let ghost stack = before.stack.update(
                        before.stack.len() - 1,
                        Frame { next: before.stack.last().next + 1, ..before.stack.last() },
                    );
                    proof {
                        lemma_line_processed_stack(popped, popped.stack, line);
                        lemma_line_processed_stack(popped, stack, line);
                        assert(CrawlState { stack: popped.stack, ..popped } == popped);
                        assert(stack_view(self.stack@) == popped.stack);
                        assert(CrawlState { stack, ..popped } == CrawlState { stack, ..before });
                    }
                    top.next = top.next + 1;
                    proof {
                        assert(top@ == stack.last());
                        assert(popped.stack == before.stack.drop_last());
                        assert(stack_view(self.stack@.push(top)) =~= stack_view(
                            self.stack@,
                        ).push(top@));
                        assert(before.stack.drop_last().push(stack.last()) =~= stack);
                    }
                    self.stack.push(top);
                    action
                }
            },
        }
    }

    /// Goes through the menus until something must be asked for.
    fn resume(&mut self) -> (action: CrawlAction)
        requires
            inv(old(self)@),
            old(self)@.pending is Running,
        ensures
            (final(self)@, action@) == resumed(old(self)@),
    {
        loop
            invariant
                inv(self@),
                self@.pending is Running,
                resumed(self@) == resumed(old(self)@),
            decreases work_left(self@),
        {
            proof {
                lemma_moved(self@);
                lemma_moved_decreases(self@);
            }
            match self.advance() {
                Some(action) => {
                    return action;
                },
                None => {},
            }
        }
    }

    /// Enters a reference that could not be fetched in the ledger.
    fn fail(&mut self, place: &Place, outcome: ResponseOutcome)
        requires
            old(self)@.pending is Running,
        ensures
            final(self)@ == failed(old(self)@, place_view(*place), outcome),
    {
        let mut display = format_server_details(place.0.as_str(), place.1);
        display.push(' ');
        display.append(place.2.as_str());
        assert(display@ =~= model::failed_entry(place_view(*place)));
        self.record_invalid(display, outcome);
    }

    /// Takes in the size of a fetched file. Says whether the crawl goes on.
    fn update_file_stats(
        &mut self,
        file_size: u64,
        place: Place,
        item_type: ItemType,
        buffer: Vec<u8>,
    ) -> (going: bool)
        requires
            old(self)@.text.count == old(self)@.text.files.len(),
            old(self)@.binary.count == old(self)@.binary.files.len(),
        ensures
            final(self)@ == observed(
                old(self)@,
                place_view(place),
                item_type,
                file_size,
                buffer@,
            ),
            going == !(final(self)@.pending is Aborted),
    {
        match item_type {
            ItemType::Text => {
                if file_size < self.text.smallest_size {
                    match from_utf8(buffer.as_slice()) {
                        Some(contents) => {
                            proof {
                                encode_utf8_decode_utf8(contents@);
                            }
                            self.text.record(place, file_size, Ghost(buffer@));
                            self.smallest_contents = contents;
                            self.waiting = Waiting::Running;
                            true
                        },
                        None => {
                            self.waiting = Waiting::Aborted;
                            false
                        },
                    }
                } else {
                    self.text.record(place, file_size, Ghost(buffer@));
                    self.waiting = Waiting::Running;
                    true
                }
            },
            ItemType::Binary => {
                self.binary.record(place, file_size, Ghost(buffer@));
                self.waiting = Waiting::Running;
                true
            },
            _ => {
                self.waiting = Waiting::Running;
                true
            },
        }
    }

    /// Takes in an event. `Some` step is asked for at once; with `None`
    /// the crawler goes on with its menus.
    fn absorb(&mut self, event: CrawlEvent) -> (action: Option<CrawlAction>)
        requires
            inv(old(self)@),
        ensures
            (final(self)@, asked(action)) == absorbed(old(self)@, event),
    {
        let mut waiting = Waiting::Running;
        std::mem::swap(&mut self.waiting, &mut waiting);
        match waiting {
            Waiting::Finished => {
                self.waiting = Waiting::Finished;
                Some(CrawlAction::Done)
            },
            Waiting::Menu(place) => match event {
                CrawlEvent::Fetched(response) => match response.response_outcome {
                    ResponseOutcome::Complete => match response.text() {
                        Some(text) => {
                            let lines = menu_lines(text.as_str());
                            let directory = Directory { place, lines, next: 0 };
                            assert(stack_view(self.stack@.push(directory)) =~= stack_view(
                                self.stack@,
                            ).push(directory@));
                            self.stack.push(directory);
                            None
                        },
                        None => Some(self.abort()),
                    },
                    _ => {
                        self.fail(&place, response.response_outcome);
                        None
                    },
                },
                _ => Some(self.abort()),
            },
            Waiting::File(place, item_type) => match event {
                CrawlEvent::Fetched(response) => match response.response_outcome {
                    ResponseOutcome::Complete => {
                        let file_name = download_file(place.2.as_str());
                        let contents = copy_bytes(&response.buffer);
                        self.waiting = Waiting::Store(place, item_type, response.buffer);
                        Some(CrawlAction::Download { file_name, contents })
                    },
                    _ => {
                        self.fail(&place, response.response_outcome);
                        None
                    },
                },
                _ => Some(self.abort()),
            },
            Waiting::Store(place, item_type, payload) => match event {
                CrawlEvent::Stored(file_size) => {
                    if self.update_file_stats(file_size, place, item_type, payload) {
                        None
                    } else {
                        Some(CrawlAction::Abort)
                    }
                },
                _ => Some(self.abort()),
            },
            Waiting::Probe(server_name, server_port) => match event {
                CrawlEvent::Probed(connected) => {
                    assert(servers_view(
                        self.external_servers@.push((server_name, server_port, connected)),
                    ) =~= servers_view(self.external_servers@).push(
                        (server_name@, server_port, connected),
                    ));
                    self.external_servers.push((server_name, server_port, connected));
                    None
                },
                _ => Some(self.abort()),
            },
            _ => Some(self.abort()),
        }
    }

    /// Begins the crawl at the origin, with the empty selector.
    pub fn start_crawl(&mut self) -> (action: CrawlAction)
        requires
            old(self).wf(),
        ensures
            final(self).wf(),
            (final(self)@, action@) == started(old(self)@),
    {
        proof {
            lemma_started(self@);
        }
        let idle = matches!(self.waiting, Waiting::Idle);
        if idle {
            let server_name = self.root_server_name.clone();
            let server_port = self.root_server_port;
            self.crawl(Rc::new(String::new()), server_name, server_port)
        } else {
            self.abort()
        }
    }

    /// Takes in what came of the step last asked for, and says what is
    /// needed next.
    pub fn step(&mut self, event: CrawlEvent) -> (action: CrawlAction)
        requires
            old(self).wf(),
        ensures
            final(self).wf(),
            (final(self)@, action@) == stepped(old(self)@, event),
    {
        proof {
            lemma_absorbed(self@, event);
        }
        match self.absorb(event) {
            Some(action) => action,
            None => {
                proof {
                    lemma_resumed(self@);
                }
                self.resume()
            },
        }
    }
}

impl Crawler {
    /// The host of the origin.
    pub fn root_server_name(&self) -> (name: &Rc<String>)
        ensures
            name@ == self@.origin_host,
    {
        &self.root_server_name
    }

    /// The port of the origin.
    pub fn root_server_port(&self) -> (port: u16)
        ensures
            port == self@.origin_port,
    {
        self.root_server_port
    }

    /// How many directories were enumerated.
    pub fn ndir(&self) -> (n: usize)
        ensures
            n == self@.ndir,
    {
        self.ndir
    }

    /// The directories that were enumerated, in the order in which their
    /// menus were finished.
    pub fn dirs(&self) -> (dirs: &Vec<Place>)
        ensures
            places_view(dirs@) == self@.directories,
    {
        &self.dirs
    }

    /// How many text files were fetched.
    pub fn ntxt(&self) -> (n: usize)
        ensures
            n == self@.text.count,
    {
        self.text.count
    }

    /// The text files that were fetched, in that order.
    pub fn txt_files(&self) -> (files: &Vec<Place>)
        ensures
            places_view(files@) == self@.text.files,
    {
        &self.text.files
    }

    /// How many binary files were fetched.
    pub fn nbin(&self) -> (n: usize)
        ensures
            n == self@.binary.count,
    {
        self.binary.count
    }

    /// The binary files that were fetched, in that order.
    pub fn bin_files(&self) -> (files: &Vec<Place>)
        ensures
            places_view(files@) == self@.binary.files,
    {
        &self.binary.files
    }

    /// The text of the smallest text file; empty while there is none.
    pub fn smallest_contents(&self) -> (contents: &String)
        ensures
            contents@ == self@.smallest_text_contents,
    {
        &self.smallest_contents
    }

    /// The size of the smallest text file; the highest value there is while
    /// there is no text file.
    pub fn smallest_txt(&self) -> (size: u64)
        ensures
            size == self@.text.smallest_size,
    {
        self.text.smallest_size
    }

    /// The size of the largest text file; zero while there is none.
    pub fn largest_txt(&self) -> (size: u64)
        ensures
            size == self@.text.largest_size,
    {
        self.text.largest_size
    }

    /// The size of the smallest binary file; the highest value there is
    /// while there is no binary file.
    pub fn smallest_bin(&self) -> (size: u64)
        ensures
            size == self@.binary.smallest_size,
    {
        self.binary.smallest_size
    }

    /// The size of the largest binary file; zero while there is none.
    pub fn largest_bin(&self) -> (size: u64)
        ensures
            size == self@.binary.largest_size,
    {
        self.binary.largest_size
    }

    /// The first text file that had the smallest size.
    pub fn smallest_txt_selector(&self) -> (place: &Option<Place>)
        ensures
            some_place_view(*place) == self@.text.smallest,
    {
        &self.text.smallest
    }

    /// The first text file that had the largest size.
    pub fn largest_txt_selector(&self) -> (place: &Option<Place>)
        ensures
            some_place_view(*place) == self@.text.largest,
    {
        &self.text.largest
    }

    /// The first binary file that had the smallest size.
    pub fn smallest_bin_selector(&self) -> (place: &Option<Place>)
        ensures
            some_place_view(*place) == self@.binary.smallest,
    {
        &self.binary.smallest
    }

    /// The first binary file that had the largest size.
    pub fn largest_bin_selector(&self) -> (place: &Option<Place>)
        ensures
            some_place_view(*place) == self@.binary.largest,
    {
        &self.binary.largest
    }

    /// How many menu lines pointed at an error item.
    pub fn nerr(&self) -> (n: u64)
        ensures
            n == self@.n_errors,
    {
        self.nerr
    }

    /// The external servers met, each with whether it accepted a
    /// connection, in the order in which they were first met.
    pub fn external_servers(&self) -> (servers: &Vec<(Rc<String>, u16, bool)>)
        ensures
            servers_view(servers@) == self@.external_servers,
    {
        &self.external_servers
    }

    /// The ledger of invalid references, in the order in which they were met.
    pub fn invalid_references(&self) -> (ledger: &Vec<(String, ResponseOutcome)>)
        ensures
            ledger_view(ledger@) == self@.invalid_refs,
    {
        &self.invalid_references
    }

    /// Whether the crawl is complete.
    pub fn is_finished(&self) -> (finished: bool)
        ensures
            finished == (self@.pending is Finished),
    {
        matches!(self.waiting, Waiting::Finished)
    }
}

impl Default for Crawler {
    /// A crawler of the default origin.
    fn default() -> (crawler: Crawler)
        ensures
            crawler.wf(),
            crawler@ == initial(DEFAULT_SERVER_NAME@, DEFAULT_SERVER_PORT),
    {
        Crawler::new(None, None)
    }
}

/// A copy of `bytes`.
fn copy_bytes(bytes: &Vec<u8>) -> (copy: Vec<u8>)
    ensures
        copy@ == bytes@,
{
    let mut copy: Vec<u8> = Vec::new();
    let mut i: usize = 0;
    while i < bytes.len()
        invariant
            i <= bytes.len(),
            copy@ == bytes@.take(i as int),
        decreases bytes.len() - i,
    {
        copy.push(bytes[i]);
        i = i + 1;
    }
    copy
}

/// Writes `host:port selector` with the port as it stood in the line.
fn malformed_display(server_name: &String, server_port: &String, selector: &String) -> (display:
    String)
    ensures
        display@ == server_name@ + seq![':'] + server_port@ + seq![' '] + selector@,
{
    let mut display = server_name.clone();
    display.push(':');
    display.append(server_port.as_str());
    display.push(' ');
    display.append(selector.as_str());
    display
}

} // verus!
