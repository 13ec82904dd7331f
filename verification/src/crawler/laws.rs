//! What holds of the crawl at every moment, and the proofs that every
//! transition keeps it so.

use super::model::{
    absorbed, begun, dir_handled, empty_tally, file_handled, initial, is_origin, known_external,
    lemma_moved_decreases, line_processed, moved, observed, recorded, resumed, started, stepped,
    work_left, CrawlState, Frame, Pending, Reference, Step, Tally,
};
use super::CrawlEvent;
use crate::gopher::response::{ItemType, MenuError, MenuRecord};
use vstd::prelude::*;
use vstd::utf8::{decode_utf8, valid_utf8};

verus! {

/// No reference occurs twice.
pub open spec fn distinct(visited: Seq<Reference>) -> bool {
    forall|i: int, j: int| 0 <= i < j < visited.len() ==> visited[i] != visited[j]
}

/// Every one of `files` has been visited.
pub open spec fn covered(files: Seq<Reference>, visited: Seq<Reference>) -> bool {
    forall|i: int| 0 <= i < files.len() ==> visited.contains(#[trigger] files[i])
}

/// `m` is the smallest of `sizes`, or the highest value there is when there are none.
pub open spec fn is_lowest(sizes: Seq<u64>, m: u64) -> bool {
    &&& forall|i: int| 0 <= i < sizes.len() ==> m <= #[trigger] sizes[i]
    &&& if sizes.len() == 0 {
        m == u64::MAX
    } else {
        sizes.contains(m)
    }
}

/// `m` is the largest of `sizes`, or zero when there are none.
pub open spec fn is_highest(sizes: Seq<u64>, m: u64) -> bool {
    &&& forall|i: int| 0 <= i < sizes.len() ==> #[trigger] sizes[i] <= m
    &&& if sizes.len() == 0 {
        m == 0
    } else {
        sizes.contains(m)
    }
}

/// `k` is the first place where `sizes` holds `size`.
pub open spec fn first_with(sizes: Seq<u64>, size: u64, k: int) -> bool {
    &&& 0 <= k < sizes.len()
    &&& sizes[k] == size
    &&& forall|i: int| 0 <= i < k ==> #[trigger] sizes[i] != size
}

/// The tally is consistent: the count is the number of files; the extreme
/// sizes are those of the files; and each extreme names the first file that
/// reached it, as soon as a file has moved it from where it began.
pub open spec fn tally_ok(t: Tally) -> bool {
    &&& t.count == t.files.len()
    &&& t.sizes.len() == t.files.len()
    &&& t.payloads.len() == t.files.len()
    &&& is_lowest(t.sizes, t.smallest_size)
    &&& is_highest(t.sizes, t.largest_size)
    &&& (t.smallest is Some <==> t.smallest_size < u64::MAX)
    &&& (t.largest is Some <==> t.largest_size > 0)
    &&& (t.smallest matches Some(r) ==> exists|k: int|
        #[trigger] first_with(t.sizes, t.smallest_size, k) && t.files[k] == r)
    &&& (t.largest matches Some(r) ==> exists|k: int|
        #[trigger] first_with(t.sizes, t.largest_size, k) && t.files[k] == r)
}

/// The text kept is that of the smallest text file.
pub open spec fn contents_ok(s: CrawlState) -> bool {
    if s.text.smallest is Some {
        exists|k: int|
            #[trigger] first_with(s.text.sizes, s.text.smallest_size, k) && valid_utf8(
                s.text.payloads[k],
            ) && s.smallest_text_contents == decode_utf8(s.text.payloads[k])
    } else {
        s.smallest_text_contents == Seq::<char>::empty()
    }
}

/// No external server is the origin, and none is listed twice.
pub open spec fn externals_ok(s: CrawlState) -> bool {
    &&& forall|i: int|
        0 <= i < s.external_servers.len() ==> !is_origin(
            s,
            (#[trigger] s.external_servers[i]).0,
            s.external_servers[i].1,
        )
    &&& forall|i: int, j: int|
        0 <= i < j < s.external_servers.len() ==> !((#[trigger] s.external_servers[i]).0 == (
        #[trigger] s.external_servers[j]).0 && s.external_servers[i].1 == s.external_servers[j].1)
}

/// Every open directory has been visited, and its cursor is within its menu.
pub open spec fn stack_ok(s: CrawlState) -> bool {
    forall|i: int|
        0 <= i < s.stack.len() ==> s.visited.contains((#[trigger] s.stack[i]).directory)
            && s.stack[i].next <= s.stack[i].lines.len()
}

/// What is waited for makes sense: a fetch is for a visited reference, a
/// file is text or binary, a probe is for an external server not yet listed.
pub open spec fn pending_ok(s: CrawlState) -> bool {
    match s.pending {
        Pending::Idle => s.visited.len() == 0 && s.stack.len() == 0,
        Pending::Menu(r) => s.visited.contains(r),
        Pending::File(r, item_type) => s.visited.contains(r) && (item_type is Text
            || item_type is Binary),
        Pending::Store(r, item_type, _) => s.visited.contains(r) && (item_type is Text
            || item_type is Binary),
        Pending::Probe(server_name, server_port) => !is_origin(s, server_name, server_port)
            && !known_external(s.external_servers, server_name, server_port),
        _ => true,
    }
}

/// Everything that holds of a crawl at every moment.
pub open spec fn inv(s: CrawlState) -> bool {
    &&& distinct(s.visited)
    &&& covered(s.directories, s.visited)
    &&& covered(s.text.files, s.visited)
    &&& covered(s.binary.files, s.visited)
    &&& s.ndir == s.directories.len()
    &&& tally_ok(s.text)
    &&& tally_ok(s.binary)
    &&& contents_ok(s)
    &&& externals_ok(s)
    &&& stack_ok(s)
    &&& pending_ok(s)
}

/// What was visited stays visited when one more reference is.
proof fn lemma_covered_push(files: Seq<Reference>, visited: Seq<Reference>, r: Reference)
    requires
        covered(files, visited),
    ensures
        covered(files, visited.push(r)),
        visited.push(r).contains(r),
        forall|x: Reference| visited.contains(x) ==> visited.push(r).contains(x),
{
    let after = visited.push(r);
    assert(after[visited.len() as int] == r);
    assert forall|x: Reference| visited.contains(x) implies after.contains(x) by {
        let i = choose|i: int| 0 <= i < visited.len() && visited[i] == x;
        assert(after[i] == x);
    }
}

/// A visited file may join a covered list.
proof fn lemma_covered_extend(files: Seq<Reference>, visited: Seq<Reference>, r: Reference)
    requires
        covered(files, visited),
        visited.contains(r),
    ensures
        covered(files.push(r), visited),
{
    assert forall|i: int| 0 <= i < files.push(r).len() implies visited.contains(
        #[trigger] files.push(r)[i],
    ) by {
        if i < files.len() {
            assert(files.push(r)[i] == files[i]);
        }
    }
}

/// A reference not seen before may join the visited without a repeat.
proof fn lemma_distinct_push(visited: Seq<Reference>, r: Reference)
    requires
        distinct(visited),
        !visited.contains(r),
    ensures
        distinct(visited.push(r)),
{
    let after = visited.push(r);
    assert forall|i: int, j: int| 0 <= i < j < after.len() implies after[i] != after[j] by {
        if j == visited.len() {
            assert(visited[i] == after[i]);
            if after[i] == r {
                assert(visited.contains(r));
            }
        }
    }
}

/// A consistent tally stays consistent when a file joins it.
pub proof fn lemma_recorded(t: Tally, file: Reference, size: u64, payload: Seq<u8>)
    requires
        tally_ok(t),
    ensures
        tally_ok(recorded(t, file, size, payload)),
{
    let after = recorded(t, file, size, payload);
    let n = t.sizes.len() as int;
    assert(after.sizes[n] == size);
    assert(after.files[n] == file);
    assert forall|i: int| 0 <= i < n implies after.sizes[i] == t.sizes[i] && after.files[i]
        == t.files[i] by {}
    assert(is_lowest(after.sizes, after.smallest_size)) by {
        if size >= t.smallest_size && n > 0 {
            let i = choose|i: int| 0 <= i < n && t.sizes[i] == t.smallest_size;
            assert(after.sizes[i] == t.smallest_size);
        }
    }
    assert(is_highest(after.sizes, after.largest_size)) by {
        if size <= t.largest_size && n > 0 {
            let i = choose|i: int| 0 <= i < n && t.sizes[i] == t.largest_size;
            assert(after.sizes[i] == t.largest_size);
        }
    }
    assert(after.smallest matches Some(r) ==> exists|k: int| #[trigger]
        first_with(after.sizes, after.smallest_size, k) && after.files[k] == r) by {
        if size < t.smallest_size {
            assert(first_with(after.sizes, size, n));
        } else if let Some(r) = t.smallest {
            let k = choose|k: int| #[trigger]
                first_with(t.sizes, t.smallest_size, k) && t.files[k] == r;
            assert(first_with(after.sizes, after.smallest_size, k));
        }
    }
    assert(after.largest matches Some(r) ==> exists|k: int| #[trigger]
        first_with(after.sizes, after.largest_size, k) && after.files[k] == r) by {
        if size > t.largest_size {
            assert(first_with(after.sizes, size, n));
        } else if let Some(r) = t.largest {
            let k = choose|k: int| #[trigger]
                first_with(t.sizes, t.largest_size, k) && t.files[k] == r;
            assert(first_with(after.sizes, after.largest_size, k));
        }
    }
}

/// Once a file of a kind is there, the smallest size is no larger than the
/// largest, and both are sizes of files of that kind.
pub proof fn lemma_extremes_are_sizes(t: Tally)
    requires
        tally_ok(t),
        t.count > 0,
    ensures
        t.smallest_size <= t.largest_size,
        t.sizes.contains(t.smallest_size),
        t.sizes.contains(t.largest_size),
{
    let i = choose|i: int| 0 <= i < t.sizes.len() && t.sizes[i] == t.smallest_size;
    assert(t.sizes[i] <= t.largest_size);
}

/// The file named as an extreme is one of the files, and has the extreme size.
pub proof fn lemma_extremes_are_files(t: Tally)
    requires
        tally_ok(t),
    ensures
        t.smallest matches Some(r) ==> exists|k: int|
            0 <= k < t.files.len() && t.files[k] == r && t.sizes[k] == t.smallest_size,
        t.largest matches Some(r) ==> exists|k: int|
            0 <= k < t.files.len() && t.files[k] == r && t.sizes[k] == t.largest_size,
{
    if let Some(r) = t.smallest {
        let k = choose|k: int|
            #[trigger] first_with(t.sizes, t.smallest_size, k) && t.files[k] == r;
        assert(0 <= k < t.files.len() && t.files[k] == r && t.sizes[k] == t.smallest_size);
    }
    if let Some(r) = t.largest {
        let k = choose|k: int|
            #[trigger] first_with(t.sizes, t.largest_size, k) && t.files[k] == r;
        assert(0 <= k < t.files.len() && t.files[k] == r && t.sizes[k] == t.largest_size);
    }
}

/// Before the crawl begins, everything holds.
pub proof fn lemma_initial(origin_host: Seq<char>, origin_port: u16)
    ensures
        inv(initial(origin_host, origin_port)),
{
}

/// Marking an unseen reference and asking for its menu keeps everything.
proof fn lemma_begun(s: CrawlState, r: Reference)
    requires
        inv(s),
        !s.visited.contains(r),
        s.pending is Running || s.pending is Idle,
    ensures
        inv(begun(s, r).0),
{
    let after = begun(s, r).0;
    lemma_distinct_push(s.visited, r);
    lemma_covered_push(s.directories, s.visited, r);
    lemma_covered_push(s.text.files, s.visited, r);
    lemma_covered_push(s.binary.files, s.visited, r);
    assert(stack_ok(after)) by {
        assert forall|i: int| 0 <= i < after.stack.len() implies after.visited.contains(
            (#[trigger] after.stack[i]).directory,
        ) && after.stack[i].next <= after.stack[i].lines.len() by {
            assert(s.visited.contains(s.stack[i].directory));
        }
    }
}

/// Beginning the crawl keeps everything.
pub proof fn lemma_started(s: CrawlState)
    requires
        inv(s),
    ensures
        inv(started(s).0),
{
    if s.pending is Idle {
        let r = (s.origin_host, s.origin_port, Seq::<char>::empty());
        lemma_begun(s, r);
    }
}

/// Recording a fetched file keeps everything.
proof fn lemma_observed(s: CrawlState, r: Reference, item_type: ItemType, size: u64, payload: Seq<u8>)
    requires
        inv(s),
        s.pending == Pending::Store(r, item_type, payload),
    ensures
        inv(observed(s, r, item_type, size, payload)),
{
    let after = observed(s, r, item_type, size, payload);
    match item_type {
        ItemType::Text => {
            if size < s.text.smallest_size && !valid_utf8(payload) {
            } else {
                lemma_recorded(s.text, r, size, payload);
                lemma_covered_extend(s.text.files, s.visited, r);
                let n = s.text.sizes.len() as int;
                assert(after.text.sizes[n] == size);
                assert(after.text.payloads[n] == payload);
                if size < s.text.smallest_size {
                    assert(first_with(after.text.sizes, size, n));
                } else if s.text.smallest is Some {
                    let k = choose|k: int|
                        #[trigger] first_with(s.text.sizes, s.text.smallest_size, k)
                            && valid_utf8(s.text.payloads[k]) && s.smallest_text_contents
                            == decode_utf8(s.text.payloads[k]);
                    assert forall|i: int| 0 <= i < n implies after.text.sizes[i]
                        == s.text.sizes[i] by {}
                    assert(first_with(after.text.sizes, after.text.smallest_size, k));
                    assert(after.text.payloads[k] == s.text.payloads[k]);
                }
            }
        },
        ItemType::Binary => {
            lemma_recorded(s.binary, r, size, payload);
            lemma_covered_extend(s.binary.files, s.visited, r);
        },
        _ => {},
    }
}

/// Taking in an event keeps everything.
pub proof fn lemma_absorbed(s: CrawlState, event: CrawlEvent)
    requires
        inv(s),
    ensures
        inv(absorbed(s, event).0),
{
    let after = absorbed(s, event).0;
    match s.pending {
        Pending::Menu(r) => {
            if let CrawlEvent::Fetched(response) = event {
                if response.response_outcome is Complete && valid_utf8(response.buffer@) {
                    assert forall|i: int| 0 <= i < after.stack.len() implies after.visited.contains(
                        (#[trigger] after.stack[i]).directory,
                    ) && after.stack[i].next <= after.stack[i].lines.len() by {
                        if i < s.stack.len() {
                            assert(after.stack[i] == s.stack[i]);
                        }
                    }
                }
            }
        },
        Pending::Store(r, item_type, payload) => {
            if let CrawlEvent::Stored(size) = event {
                lemma_observed(s, r, item_type, size, payload);
            }
        },
        Pending::Probe(server_name, server_port) => {
            if let CrawlEvent::Probed(connected) = event {
                let n = s.external_servers.len() as int;
                assert forall|i: int, j: int| 0 <= i < j < after.external_servers.len() implies !((
                #[trigger] after.external_servers[i]).0 == (#[trigger] after.external_servers[j]).0
                    && after.external_servers[i].1 == after.external_servers[j].1) by {
                    if j == n {
                        assert(after.external_servers[i] == s.external_servers[i]);
                    } else {
                        assert(after.external_servers[i] == s.external_servers[i]);
                        assert(after.external_servers[j] == s.external_servers[j]);
                    }
                }
                assert forall|i: int| 0 <= i < after.external_servers.len() implies !is_origin(
                    after,
                    (#[trigger] after.external_servers[i]).0,
                    after.external_servers[i].1,
                ) by {
                    if i < n {
                        assert(after.external_servers[i] == s.external_servers[i]);
                    }
                }
            }
        },
        _ => {},
    }
}

/// Dealing with one menu line keeps everything.
proof fn lemma_line_processed(s: CrawlState, line: Result<MenuRecord, MenuError>)
    requires
        inv(s),
        s.pending is Running,
    ensures
        inv(line_processed(s, line).0),
{
    match line {
        Ok(record) => {
            let r = (record.server_name, record.server_port, record.selector);
            match record.item_type {
                ItemType::Text | ItemType::Binary => {
                    if !s.visited.contains(r) {
                        let after = file_handled(s, record).0;
                        lemma_distinct_push(s.visited, r);
                        lemma_covered_push(s.directories, s.visited, r);
                        lemma_covered_push(s.text.files, s.visited, r);
                        lemma_covered_push(s.binary.files, s.visited, r);
                        assert forall|i: int| 0 <= i < after.stack.len() implies
                            after.visited.contains((#[trigger] after.stack[i]).directory)
                            && after.stack[i].next <= after.stack[i].lines.len() by {
                            assert(s.visited.contains(s.stack[i].directory));
                        }
                    }
                },
                ItemType::Directory => {
                    if is_origin(s, record.server_name, record.server_port) && !s.visited.contains(
                        r,
                    ) {
                        lemma_begun(s, r);
                    }
                },
                _ => {},
            }
        },
        Err(_) => {},
    }
}

/// One move through the menus keeps everything.
pub proof fn lemma_moved(s: CrawlState)
    requires
        inv(s),
        s.pending is Running,
    ensures
        inv(moved(s).0),
        moved(s).1 is None ==> moved(s).0.pending is Running,
{
    if s.stack.len() > 0 {
        let top = s.stack.last();
        if top.next >= top.lines.len() {
            let after = moved(s).0;
            assert(s.visited.contains(s.stack[s.stack.len() - 1].directory));
            lemma_covered_extend(s.directories, s.visited, top.directory);
            assert forall|i: int| 0 <= i < after.stack.len() implies after.visited.contains(
                (#[trigger] after.stack[i]).directory,
            ) && after.stack[i].next <= after.stack[i].lines.len() by {
                assert(after.stack[i] == s.stack[i]);
            }
        } else {
            let stack = s.stack.update(s.stack.len() - 1, Frame { next: top.next + 1, ..top });
            let advanced = CrawlState { stack, ..s };
            assert forall|i: int| 0 <= i < stack.len() implies advanced.visited.contains(
                (#[trigger] stack[i]).directory,
            ) && stack[i].next <= stack[i].lines.len() by {
                assert(s.visited.contains(s.stack[i].directory));
            }
            lemma_line_processed(advanced, top.lines[top.next as int]);
        }
    }
}

/// Going through the menus keeps everything, and ends waiting for something.
pub proof fn lemma_resumed(s: CrawlState)
    requires
        inv(s),
        s.pending is Running,
    ensures
        inv(resumed(s).0),
        !(resumed(s).0.pending is Running),
    decreases work_left(s),
{
    lemma_moved(s);
    lemma_moved_decreases(s);
    if moved(s).1 is None {
        lemma_resumed(moved(s).0);
    }
}

/// Every event keeps everything.
pub proof fn lemma_stepped(s: CrawlState, event: CrawlEvent)
    requires
        inv(s),
    ensures
        inv(stepped(s, event).0),
{
    lemma_absorbed(s, event);
    if absorbed(s, event).1 is None {
        assert(absorbed(s, event).0.pending is Running);
        lemma_resumed(absorbed(s, event).0);
    }
}

/// No reference is visited twice.
pub proof fn lemma_visited_once(s: CrawlState, i: int, j: int)
    requires
        inv(s),
        0 <= i < s.visited.len(),
        0 <= j < s.visited.len(),
        s.visited[i] == s.visited[j],
    ensures
        i == j,
{
    if i < j {
        assert(s.visited[i] != s.visited[j]);
    } else if j < i {
        assert(s.visited[j] != s.visited[i]);
    }
}

/// No external server listed is the origin, and none is listed twice.
pub proof fn lemma_externals_once(s: CrawlState, i: int, j: int)
    requires
        inv(s),
        0 <= i < s.external_servers.len(),
        0 <= j < s.external_servers.len(),
    ensures
        !is_origin(s, s.external_servers[i].0, s.external_servers[i].1),
        s.external_servers[i].0 == s.external_servers[j].0 && s.external_servers[i].1
            == s.external_servers[j].1 ==> i == j,
{
    if i < j {
        assert(!(s.external_servers[i].0 == s.external_servers[j].0 && s.external_servers[i].1
            == s.external_servers[j].1));
    } else if j < i {
        assert(!(s.external_servers[j].0 == s.external_servers[i].0 && s.external_servers[j].1
            == s.external_servers[i].1));
    }
}

/// Whatever is listed as a directory, a text file or a binary file has been visited.
pub proof fn lemma_listed_is_visited(s: CrawlState, r: Reference)
    requires
        inv(s),
        s.directories.contains(r) || s.text.files.contains(r) || s.binary.files.contains(r),
    ensures
        s.visited.contains(r),
{
    if s.directories.contains(r) {
        let i = choose|i: int| 0 <= i < s.directories.len() && s.directories[i] == r;
        assert(s.visited.contains(s.directories[i]));
    } else if s.text.files.contains(r) {
        let i = choose|i: int| 0 <= i < s.text.files.len() && s.text.files[i] == r;
        assert(s.visited.contains(s.text.files[i]));
    } else {
        let i = choose|i: int| 0 <= i < s.binary.files.len() && s.binary.files[i] == r;
        assert(s.visited.contains(s.binary.files[i]));
    }
}

/// The counts are the lengths of the lists.
pub proof fn lemma_counts_are_lengths(s: CrawlState)
    requires
        inv(s),
    ensures
        s.ndir == s.directories.len(),
        s.text.count == s.text.files.len(),
        s.binary.count == s.binary.files.len(),
{
}

/// A menu line whose item is an error adds one to the error count and
/// changes nothing else, as long as the count has room.
pub proof fn lemma_error_line_only_counts(s: CrawlState, record: MenuRecord)
    requires
        record.item_type is Error,
        s.n_errors < u64::MAX,
    ensures
        line_processed(s, Ok(record)) == (CrawlState { n_errors: s.n_errors + 1, ..s }, None::<Step>),
{
}

/// A response that is not complete puts one entry in the ledger, touches
/// no list of files or directories, and the crawl goes on with its menus.
pub proof fn lemma_failure_is_recorded_once(s: CrawlState, event: CrawlEvent)
    requires
        s.pending is Menu || s.pending is File,
        event matches CrawlEvent::Fetched(response) && !(response.response_outcome is Complete),
    ensures
        absorbed(s, event).1 is None,
        absorbed(s, event).0.invalid_refs.len() == s.invalid_refs.len() + 1,
        absorbed(s, event).0.invalid_refs.last().1 == event->Fetched_0.response_outcome,
        absorbed(s, event).0.invalid_refs.drop_last() == s.invalid_refs,
        absorbed(s, event).0.directories == s.directories,
        absorbed(s, event).0.text == s.text,
        absorbed(s, event).0.binary == s.binary,
        absorbed(s, event).0.pending is Running,
{
    let after = absorbed(s, event).0;
    assert(after.invalid_refs.drop_last() =~= s.invalid_refs);
}

/// The first file of a kind, if it is empty, sets both extremes to zero.
pub proof fn lemma_first_empty_file(file: Reference, payload: Seq<u8>)
    ensures
        recorded(empty_tally(), file, 0, payload).smallest_size == 0,
        recorded(empty_tally(), file, 0, payload).largest_size == 0,
{
}

/// The text kept changes only when a strictly smaller text file arrives,
/// and then it is the text of that file.
pub proof fn lemma_contents_follow_smallest(
    s: CrawlState,
    r: Reference,
    size: u64,
    payload: Seq<u8>,
)
    ensures
        size >= s.text.smallest_size ==> observed(
            s,
            r,
            ItemType::Text,
            size,
            payload,
        ).smallest_text_contents == s.smallest_text_contents,
        size < s.text.smallest_size && valid_utf8(payload) ==> observed(
            s,
            r,
            ItemType::Text,
            size,
            payload,
        ).smallest_text_contents == decode_utf8(payload),
{
}

} // verus!
