//! The crawl as a state machine over plain values: what the crawler knows,
//! what it is waiting for, and how each event moves it on.

use super::CrawlEvent;
use crate::gopher::request::server_details;
use crate::gopher::response::{parse_menu, ItemType, MenuError, MenuRecord, ResponseOutcome};
use vstd::prelude::*;
use vstd::utf8::{decode_utf8, valid_utf8};

verus! {

/// A place on a server: host, port and selector.
pub type Reference = (Seq<char>, u16, Seq<char>);

/// The files of one kind that were fetched, with the extremes of their sizes.
///
/// `files`, `sizes` and `payloads` run in step: the size and the bytes of
/// `files[i]` are `sizes[i]` and `payloads[i]`.
pub struct Tally {
    pub count: nat,
    pub files: Seq<Reference>,
    pub sizes: Seq<u64>,
    pub payloads: Seq<Seq<u8>>,
    pub smallest_size: u64,
    pub smallest: Option<Reference>,
    pub largest_size: u64,
    pub largest: Option<Reference>,
}

/// A directory whose menu is being worked through.
pub struct Frame {
    pub directory: Reference,
    pub lines: Seq<Result<MenuRecord, MenuError>>,
    pub next: nat,
}

/// What the crawler is waiting for.
pub enum Pending {
    /// The crawl has not begun.
    Idle,
    /// Nothing: there are menu lines to work through.
    Running,
    /// The menu of this directory.
    Menu(Reference),
    /// The contents of this file.
    File(Reference, ItemType),
    /// The size that these contents of this file have once written out.
    Store(Reference, ItemType, Seq<u8>),
    /// Whether this external server accepts a connection.
    Probe(Seq<char>, u16),
    /// Nothing: the crawl is complete.
    Finished,
    /// Nothing: the crawl was given up.
    Aborted,
}

/// What the crawler asks for next.
pub enum Step {
    /// One request/response cycle.
    Fetch { server_details: Seq<char>, selector: Seq<char>, item_type: ItemType },
    /// One connection attempt, nothing sent.
    Connect { server_name: Seq<char>, server_port: u16 },
    /// Write `contents` out under `file_name` and report the file's size.
    Download { file_name: Seq<char>, contents: Seq<u8> },
    /// Nothing more: the crawl is complete.
    Done,
    /// Nothing more: the crawl was given up.
    Abort,
}

/// Everything the crawler knows.
pub struct CrawlState {
    pub origin_host: Seq<char>,
    pub origin_port: u16,
    pub visited: Seq<Reference>,
    pub ndir: nat,
    pub directories: Seq<Reference>,
    pub text: Tally,
    pub binary: Tally,
    pub smallest_text_contents: Seq<char>,
    pub n_errors: nat,
    pub external_servers: Seq<(Seq<char>, u16, bool)>,
    pub invalid_refs: Seq<(Seq<char>, ResponseOutcome)>,
    pub stack: Seq<Frame>,
    pub pending: Pending,
}

/// No files yet: the smallest size stands at its highest value, the largest at zero.
pub open spec fn empty_tally() -> Tally {
    Tally {
        count: 0,
        files: Seq::empty(),
        sizes: Seq::empty(),
        payloads: Seq::empty(),
        smallest_size: u64::MAX,
        smallest: None,
        largest_size: 0,
        largest: None,
    }
}

/// The state before the crawl of `origin_host:origin_port` begins.
pub open spec fn initial(origin_host: Seq<char>, origin_port: u16) -> CrawlState {
    CrawlState {
        origin_host,
        origin_port,
        visited: Seq::empty(),
        ndir: 0,
        directories: Seq::empty(),
        text: empty_tally(),
        binary: empty_tally(),
        smallest_text_contents: Seq::empty(),
        n_errors: 0,
        external_servers: Seq::empty(),
        invalid_refs: Seq::empty(),
        stack: Seq::empty(),
        pending: Pending::Idle,
    }
}

/// A file of `size` bytes joins the tally. Only a strictly smaller size
/// replaces the smallest, only a strictly larger one the largest.
pub open spec fn recorded(t: Tally, file: Reference, size: u64, payload: Seq<u8>) -> Tally {
    Tally {
        count: t.count + 1,
        files: t.files.push(file),
        sizes: t.sizes.push(size),
        payloads: t.payloads.push(payload),
        smallest_size: if size < t.smallest_size {
            size
        } else {
            t.smallest_size
        },
        smallest: if size < t.smallest_size {
            Some(file)
        } else {
            t.smallest
        },
        largest_size: if size > t.largest_size {
            size
        } else {
            t.largest_size
        },
        largest: if size > t.largest_size {
            Some(file)
        } else {
            t.largest
        },
    }
}

/// Whether `(server_name, server_port)` is the origin.
pub open spec fn is_origin(s: CrawlState, server_name: Seq<char>, server_port: u16) -> bool {
    server_name == s.origin_host && server_port == s.origin_port
}

/// Whether an entry for `(server_name, server_port)` is among the external servers.
pub open spec fn known_external(
    servers: Seq<(Seq<char>, u16, bool)>,
    server_name: Seq<char>,
    server_port: u16,
) -> bool {
    exists|i: int|
        0 <= i < servers.len() && (#[trigger] servers[i]).0 == server_name && servers[i].1
            == server_port
}

/// How a reference that could not be fetched is written in the ledger.
pub open spec fn failed_entry(r: Reference) -> Seq<char> {
    server_details(r.0, r.1) + seq![' '] + r.2
}

/// How a menu line that could not be parsed is written in the ledger.
pub open spec fn malformed_entry(e: MenuError) -> Seq<char> {
    match e {
        MenuError::Empty => Seq::empty(),
        MenuError::InvalidParts(line) => line,
        MenuError::EmptyDisplayString(line) => line,
        MenuError::EmptyHost(host, port, selector) => host + seq![':'] + port + seq![' ']
            + selector,
        MenuError::NonIntPort(host, port, selector) => host + seq![':'] + port + seq![' ']
            + selector,
    }
}

/// The most characters of a selector that go into a file name.
pub const MAX_FILENAME_LEN: usize = 255;

/// A character as it stands in a file name: `-` for `/`, itself otherwise.
pub open spec fn dashed(c: char) -> char {
    if c == '/' {
        '-'
    } else {
        c
    }
}

/// The name under which the contents of `selector` are written out: one
/// leading `/` is dropped, at most `MAX_FILENAME_LEN` characters are kept,
/// and every `/` left becomes `-`.
pub open spec fn file_name(selector: Seq<char>) -> Seq<char> {
    let rest = if selector.len() > 0 && selector[0] == '/' {
        selector.drop_first()
    } else {
        selector
    };
    let kept = if rest.len() > MAX_FILENAME_LEN {
        rest.take(MAX_FILENAME_LEN as int)
    } else {
        rest
    };
    kept.map_values(|c: char| dashed(c))
}

/// The crawl is given up; what was gathered stays as it is.
pub open spec fn aborted(s: CrawlState) -> CrawlState {
    CrawlState { pending: Pending::Aborted, ..s }
}

/// `r` is marked visited and the menu of `r` is asked for.
pub open spec fn begun(s: CrawlState, r: Reference) -> (CrawlState, Step) {
    (
        CrawlState { visited: s.visited.push(r), pending: Pending::Menu(r), ..s },
        Step::Fetch {
            server_details: server_details(r.0, r.1),
            selector: r.2,
            item_type: ItemType::Directory,
        },
    )
}

/// The crawl begins at the origin with the empty selector. Beginning twice
/// gives the crawl up.
pub open spec fn started(s: CrawlState) -> (CrawlState, Step) {
    if s.pending is Idle {
        begun(s, (s.origin_host, s.origin_port, Seq::empty()))
    } else {
        (aborted(s), Step::Abort)
    }
}

/// A reference has failed: one entry in the ledger, and on with the menus.
pub open spec fn failed(s: CrawlState, r: Reference, outcome: ResponseOutcome) -> CrawlState {
    CrawlState {
        invalid_refs: s.invalid_refs.push((failed_entry(r), outcome)),
        pending: Pending::Running,
        ..s
    }
}

/// The size of a fetched file is known: the file joins its tally. The
/// contents of a text file that becomes the smallest are kept as text; if
/// they are not well-formed UTF-8 the crawl is given up.
pub open spec fn observed(
    s: CrawlState,
    r: Reference,
    item_type: ItemType,
    size: u64,
    payload: Seq<u8>,
) -> CrawlState {
    match item_type {
        ItemType::Text => {
            if size < s.text.smallest_size {
                if valid_utf8(payload) {
                    CrawlState {
                        text: recorded(s.text, r, size, payload),
                        smallest_text_contents: decode_utf8(payload),
                        pending: Pending::Running,
                        ..s
                    }
                } else {
                    aborted(s)
                }
            } else {
                CrawlState {
                    text: recorded(s.text, r, size, payload),
                    pending: Pending::Running,
                    ..s
                }
            }
        },
        ItemType::Binary => CrawlState {
            binary: recorded(s.binary, r, size, payload),
            pending: Pending::Running,
            ..s
        },
        _ => CrawlState { pending: Pending::Running, ..s },
    }
}

/// What an event does to a waiting crawler. `Some` step is asked for at
/// once; with `None` the crawler goes on with its menus.
///
/// A finished crawl stays finished and a crawl given up stays given up. An
/// event that does not answer what was asked for gives the crawl up.
pub open spec fn absorbed(s: CrawlState, event: CrawlEvent) -> (CrawlState, Option<Step>) {
    match s.pending {
        Pending::Finished => (s, Some(Step::Done)),
        Pending::Menu(r) => match event {
            CrawlEvent::Fetched(response) => {
                if !(response.response_outcome is Complete) {
                    (failed(s, r, response.response_outcome), None)
                } else if valid_utf8(response.buffer@) {
                    (
                        CrawlState {
                            stack: s.stack.push(
                                Frame {
                                    directory: r,
                                    lines: parse_menu(decode_utf8(response.buffer@)),
                                    next: 0,
                                },
                            ),
                            pending: Pending::Running,
                            ..s
                        },
                        None,
                    )
                } else {
                    (aborted(s), Some(Step::Abort))
                }
            },
            _ => (aborted(s), Some(Step::Abort)),
        },
        Pending::File(r, item_type) => match event {
            CrawlEvent::Fetched(response) => {
                if response.response_outcome is Complete {
                    (
                        CrawlState {
                            pending: Pending::Store(r, item_type, response.buffer@),
                            ..s
                        },
                        Some(
                            Step::Download {
                                file_name: file_name(r.2),
                                contents: response.buffer@,
                            },
                        ),
                    )
                } else {
                    (failed(s, r, response.response_outcome), None)
                }
            },
            _ => (aborted(s), Some(Step::Abort)),
        },
        Pending::Store(r, item_type, payload) => match event {
            CrawlEvent::Stored(size) => {
                let after = observed(s, r, item_type, size, payload);
                if after.pending is Aborted {
                    (after, Some(Step::Abort))
                } else {
                    (after, None)
                }
            },
            _ => (aborted(s), Some(Step::Abort)),
        },
        Pending::Probe(server_name, server_port) => match event {
            CrawlEvent::Probed(connected) => (
                CrawlState {
                    external_servers: s.external_servers.push(
                        (server_name, server_port, connected),
                    ),
                    pending: Pending::Running,
                    ..s
                },
                None,
            ),
            _ => (aborted(s), Some(Step::Abort)),
        },
        _ => (aborted(s), Some(Step::Abort)),
    }
}

/// A line that points at a file: fetched unless seen before.
pub open spec fn file_handled(s: CrawlState, line: MenuRecord) -> (CrawlState, Option<Step>) {
    let r = (line.server_name, line.server_port, line.selector);
    if s.visited.contains(r) {
        (s, None)
    } else {
        (
            CrawlState {
                visited: s.visited.push(r),
                pending: Pending::File(r, line.item_type),
                ..s
            },
            Some(
                Step::Fetch {
                    server_details: server_details(r.0, r.1),
                    selector: r.2,
                    item_type: line.item_type,
                },
            ),
        )
    }
}

/// A line that points at a directory. On another server it is never
/// entered: the server is tried once, the first time it is met. On the
/// origin it is entered unless seen before.
pub open spec fn dir_handled(s: CrawlState, line: MenuRecord) -> (CrawlState, Option<Step>) {
    let r = (line.server_name, line.server_port, line.selector);
    if !is_origin(s, line.server_name, line.server_port) {
        if known_external(s.external_servers, line.server_name, line.server_port) {
            (s, None)
        } else {
            (
                CrawlState {
                    pending: Pending::Probe(line.server_name, line.server_port),
                    ..s
                },
                Some(
                    Step::Connect {
                        server_name: line.server_name,
                        server_port: line.server_port,
                    },
                ),
            )
        }
    } else if s.visited.contains(r) {
        (s, None)
    } else {
        let (after, step) = begun(s, r);
        (after, Some(step))
    }
}

/// One menu line is dealt with. An empty line is passed over; any other
/// line that did not parse is entered in the ledger. An error item is
/// counted and nothing else; an unknown item is passed over.
pub open spec fn line_processed(s: CrawlState, line: Result<MenuRecord, MenuError>) -> (
    CrawlState,
    Option<Step>,
) {
    match line {
        Err(MenuError::Empty) => (s, None),
        Err(e) => (
            CrawlState {
                invalid_refs: s.invalid_refs.push(
                    (malformed_entry(e), ResponseOutcome::MalformedResponseLine),
                ),
                ..s
            },
            None,
        ),
        Ok(record) => match record.item_type {
            ItemType::Text => file_handled(s, record),
            ItemType::Binary => file_handled(s, record),
            ItemType::Directory => dir_handled(s, record),
            ItemType::Error => {
                if s.n_errors < u64::MAX {
                    (CrawlState { n_errors: s.n_errors + 1, ..s }, None)
                } else {
                    (aborted(s), Some(Step::Abort))
                }
            },
            ItemType::Unknown => (s, None),
        },
    }
}

/// One move through the menus. With no directory open the crawl is
/// complete. A directory whose lines are all dealt with is closed and
/// recorded. Otherwise the next line of the innermost directory is dealt
/// with.
pub open spec fn moved(s: CrawlState) -> (CrawlState, Option<Step>) {
    if s.stack.len() == 0 {
        (CrawlState { pending: Pending::Finished, ..s }, Some(Step::Done))
    } else {
        let top = s.stack.last();
        if top.next >= top.lines.len() {
            (
                CrawlState {
                    stack: s.stack.drop_last(),
                    directories: s.directories.push(top.directory),
                    ndir: s.ndir + 1,
                    ..s
                },
                None,
            )
        } else {
            let advanced = CrawlState {
                stack: s.stack.update(s.stack.len() - 1, Frame { next: top.next + 1, ..top }),
                ..s
            };
            line_processed(advanced, top.lines[top.next as int])
        }
    }
}

/// Dealing with a line neither reads nor changes the open directories.
pub proof fn lemma_line_processed_stack(
    s: CrawlState,
    stack: Seq<Frame>,
    line: Result<MenuRecord, MenuError>,
)
    ensures
        line_processed(CrawlState { stack, ..s }, line) == (
            CrawlState { stack, ..line_processed(s, line).0 },
            line_processed(s, line).1,
        ),
{
}

/// The menu lines not yet dealt with, over all open directories.
pub open spec fn lines_left(stack: Seq<Frame>) -> nat
    decreases stack.len(),
{
    if stack.len() == 0 {
        0
    } else {
        let top = stack.last();
        let here: nat = if top.next < top.lines.len() {
            (top.lines.len() - top.next) as nat
        } else {
            0
        };
        lines_left(stack.drop_last()) + here
    }
}

/// The moves that are left at most before something must be asked for.
pub open spec fn work_left(s: CrawlState) -> nat {
    lines_left(s.stack) + s.stack.len()
}

/// The crawler goes through its menus until it must ask for something.
pub open spec fn resumed(s: CrawlState) -> (CrawlState, Step)
    decreases work_left(s),
    via resumed_decreases
{
    let (after, step) = moved(s);
    match step {
        Some(step) => (after, step),
        None => resumed(after),
    }
}

#[via_fn]
proof fn resumed_decreases(s: CrawlState) {
    lemma_moved_decreases(s);
}

/// A move that asks for nothing leaves less to do.
pub proof fn lemma_moved_decreases(s: CrawlState)
    ensures
        moved(s).1 is None ==> work_left(moved(s).0) < work_left(s),
{
    if s.stack.len() > 0 {
        let top = s.stack.last();
        if top.next < top.lines.len() {
            let stack = s.stack.update(s.stack.len() - 1, Frame { next: top.next + 1, ..top });
            assert(stack.drop_last() =~= s.stack.drop_last());
            let advanced = CrawlState { stack, ..s };
            let after = line_processed(advanced, top.lines[top.next as int]);
            if after.1 is None {
                assert(after.0.stack == stack);
            }
        }
    }
}

/// What an event leads to: the state it leaves and the step asked for next.
pub open spec fn stepped(s: CrawlState, event: CrawlEvent) -> (CrawlState, Step) {
    let (after, step) = absorbed(s, event);
    match step {
        Some(step) => (after, step),
        None => resumed(after),
    }
}

} // verus!
