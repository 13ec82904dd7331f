//! What a Gopher server sends back: the raw response, its outcome, and the
//! menu lines that a directory response is made of.

use super::request::format_server_details;
use crate::text::{
    chars_of, decimal, find_char, find_from, free_of, from_utf8, lemma_decimal, lemma_find_from,
    lemma_find_from_unique, lemma_parse_port_decimal, parse_port, push_decimal, read_port,
    string_of, CR, LF, TAB,
};
use std::rc::Rc;
use vstd::prelude::*;
use vstd::utf8::{decode_utf8, encode_utf8_decode_utf8, valid_utf8};

verus! {

/// The kind of item that a menu line points at, told by the first character
/// of its display string.
#[derive(Clone, Copy, Debug, PartialEq, Eq, Structural)]
pub enum ItemType {
    /// `0`: a text file.
    Text,
    /// `1`: a directory.
    Directory,
    /// `3`: an error reported by the server.
    Error,
    /// `9`: a binary file.
    Binary,
    /// Any other character.
    Unknown,
}

/// How one request/response cycle ended.
#[derive(Clone, Copy, Debug, PartialEq, Eq, Structural)]
pub enum ResponseOutcome {
    /// The whole response arrived.
    Complete,
    /// A single read took too long.
    Timeout,
    /// The response was still arriving when the overall deadline passed.
    FileTooLong,
    /// No connection could be made.
    ConnectionFailed,
    /// A text or directory response did not end with the terminator line.
    MissingEndLine,
    /// A menu line could not be understood.
    MalformedResponseLine,
}

/// The bytes received and how the exchange ended. For a complete text or
/// directory response the terminator line is already cut off.
#[derive(Debug)]
pub struct Response {
    pub buffer: Vec<u8>,
    pub response_outcome: ResponseOutcome,
}

/// A menu line that parsed: the display string is dropped once its first
/// character has given the item type.
#[derive(Clone, Debug, PartialEq, Eq)]
pub struct ResponseLine {
    pub item_type: ItemType,
    pub selector: Rc<String>,
    pub server_name: Rc<String>,
    pub server_port: u16,
}

/// Why a menu line did not parse.
#[derive(Clone, Debug, PartialEq, Eq)]
pub enum ResponseLineError {
    /// The line is empty.
    Empty,
    /// The line has fewer than four tab-separated fields; holds the line.
    InvalidParts(String),
    /// The display string is empty; holds the line.
    EmptyDisplayString(String),
    /// The host is empty; holds host, port text and selector.
    EmptyHost(String, String, String),
    /// The port is not a 16-bit number; holds host, port text and selector.
    NonIntPort(String, String, String),
}

/// A parsed menu line as plain values.
pub struct MenuRecord {
    pub item_type: ItemType,
    pub selector: Seq<char>,
    pub server_name: Seq<char>,
    pub server_port: u16,
}

/// A parse failure as plain values.
pub enum MenuError {
    Empty,
    InvalidParts(Seq<char>),
    EmptyDisplayString(Seq<char>),
    EmptyHost(Seq<char>, Seq<char>, Seq<char>),
    NonIntPort(Seq<char>, Seq<char>, Seq<char>),
}

impl View for ResponseLine {
    type V = MenuRecord;

    open spec fn view(&self) -> MenuRecord {
        MenuRecord {
            item_type: self.item_type,
            selector: self.selector@,
            server_name: self.server_name@,
            server_port: self.server_port,
        }
    }
}

impl View for ResponseLineError {
    type V = MenuError;

    open spec fn view(&self) -> MenuError {
        match self {
            ResponseLineError::Empty => MenuError::Empty,
            ResponseLineError::InvalidParts(line) => MenuError::InvalidParts(line@),
            ResponseLineError::EmptyDisplayString(line) => MenuError::EmptyDisplayString(line@),
            ResponseLineError::EmptyHost(host, port, selector) => MenuError::EmptyHost(
                host@,
                port@,
                selector@,
            ),
            ResponseLineError::NonIntPort(host, port, selector) => MenuError::NonIntPort(
                host@,
                port@,
                selector@,
            ),
        }
    }
}

/// The view of what parsing one line gives.
pub open spec fn parsed_view(r: Result<ResponseLine, ResponseLineError>) -> Result<
    MenuRecord,
    MenuError,
> {
    match r {
        Ok(line) => Ok(line@),
        Err(error) => Err(error@),
    }
}

/// The views of what parsing each line of a menu gives.
pub open spec fn lines_view(lines: Seq<Result<ResponseLine, ResponseLineError>>) -> Seq<
    Result<MenuRecord, MenuError>,
> {
    lines.map_values(|r: Result<ResponseLine, ResponseLineError>| parsed_view(r))
}

/// The item type that a display string's first character stands for.
pub open spec fn item_type_of(c: char) -> ItemType {
    if c == '0' {
        ItemType::Text
    } else if c == '1' {
        ItemType::Directory
    } else if c == '3' {
        ItemType::Error
    } else if c == '9' {
        ItemType::Binary
    } else {
        ItemType::Unknown
    }
}

/// The four fields of a line: display string, selector, host and port text.
/// The first three end at the first three tabs; the fourth is all that
/// follows, tabs included. A line with fewer than three tabs has no fields.
pub open spec fn fields_of(line: Seq<char>) -> Option<(Seq<char>, Seq<char>, Seq<char>, Seq<char>)> {
    let t1 = find_from(line, TAB, 0);
    let t2 = find_from(line, TAB, t1 + 1);
    let t3 = find_from(line, TAB, t2 + 1);
    if t3 < line.len() {
        Some(
            (
                line.subrange(0, t1),
                line.subrange(t1 + 1, t2),
                line.subrange(t2 + 1, t3),
                line.subrange(t3 + 1, line.len() as int),
            ),
        )
    } else {
        None
    }
}

/// What a menu line means: a record, or the first reason why it is none.
pub open spec fn parse_line(line: Seq<char>) -> Result<MenuRecord, MenuError> {
    if line.len() == 0 {
        Err(MenuError::Empty)
    } else {
        match fields_of(line) {
            None => Err(MenuError::InvalidParts(line)),
            Some((display, selector, host, port)) => {
                if display.len() == 0 {
                    Err(MenuError::EmptyDisplayString(line))
                } else if host.len() == 0 {
                    Err(MenuError::EmptyHost(host, port, selector))
                } else {
                    match parse_port(port) {
                        None => Err(MenuError::NonIntPort(host, port, selector)),
                        Some(server_port) => Ok(
                            MenuRecord {
                                item_type: item_type_of(display[0]),
                                selector,
                                server_name: host,
                                server_port,
                            },
                        ),
                    }
                }
            },
        }
    }
}

/// The character that stands for an item type at the head of a line. An
/// unknown type has no character of its own and is written `?`.
pub open spec fn type_char(t: ItemType) -> char {
    match t {
        ItemType::Text => '0',
        ItemType::Directory => '1',
        ItemType::Error => '3',
        ItemType::Binary => '9',
        ItemType::Unknown => '?',
    }
}

/// A record written as a menu line, with nothing but the type character
/// for a display string.
pub open spec fn line_of(r: MenuRecord) -> Seq<char> {
    seq![type_char(r.item_type), TAB] + r.selector + seq![TAB] + r.server_name + seq![TAB]
        + decimal(r.server_port as nat)
}

/// What holds of every record that a line can mean: there is a host, and
/// neither host nor selector holds a tab.
pub open spec fn well_formed(r: MenuRecord) -> bool {
    &&& r.server_name.len() > 0
    &&& free_of(r.server_name, TAB)
    &&& free_of(r.selector, TAB)
}

/// A record that a line means is well formed.
pub proof fn lemma_parsed_is_well_formed(line: Seq<char>)
    requires
        parse_line(line) is Ok,
    ensures
        well_formed(parse_line(line)->Ok_0),
{
    let t1 = find_from(line, TAB, 0);
    lemma_find_from(line, TAB, 0);
    lemma_find_from(line, TAB, t1 + 1);
    let t2 = find_from(line, TAB, t1 + 1);
    lemma_find_from(line, TAB, t2 + 1);
}

/// A well-formed record written as a line means that record again.
pub proof fn lemma_line_of_parses(r: MenuRecord)
    requires
        well_formed(r),
    ensures
        parse_line(line_of(r)) == Ok::<MenuRecord, MenuError>(r),
{
    let line = line_of(r);
    let numeral = decimal(r.server_port as nat);
    let t1: int = 1;
    let t2: int = 2 + r.selector.len() as int;
    let t3: int = t2 + 1 + r.server_name.len() as int;
    lemma_decimal(r.server_port as nat);
    assert(line.len() == t3 + 1 + numeral.len());
    assert(line[0] == type_char(r.item_type));
    assert(line[1] == TAB);
    assert forall|i: int| t1 + 1 <= i < t2 implies line[i] != TAB by {
        assert(line[i] == r.selector[i - 2]);
    }
    assert(line[t2] == TAB);
    assert forall|i: int| t2 + 1 <= i < t3 implies line[i] != TAB by {
        assert(line[i] == r.server_name[i - t2 - 1]);
    }
    assert(line[t3] == TAB);
    lemma_find_from_unique(line, TAB, 0, t1);
    lemma_find_from_unique(line, TAB, t1 + 1, t2);
    lemma_find_from_unique(line, TAB, t2 + 1, t3);
    assert(line.subrange(0, t1) =~= seq![type_char(r.item_type)]);
    assert(line.subrange(t1 + 1, t2) =~= r.selector);
    assert(line.subrange(t2 + 1, t3) =~= r.server_name);
    assert(line.subrange(t3 + 1, line.len() as int) =~= numeral);
    lemma_parse_port_decimal(r.server_port);
    assert(item_type_of(type_char(r.item_type)) == r.item_type);
}

/// Parsing a line, writing the record out and parsing again gives the same record.
pub proof fn lemma_parse_write_parse(line: Seq<char>)
    requires
        parse_line(line) is Ok,
    ensures
        parse_line(line_of(parse_line(line)->Ok_0)) == parse_line(line),
{
    lemma_parsed_is_well_formed(line);
    lemma_line_of_parses(parse_line(line)->Ok_0);
}

/// A menu with nothing in it has one line, the empty one, and so no record.
pub proof fn lemma_empty_menu()
    ensures
        parse_menu(Seq::empty()) == seq![Err::<MenuRecord, MenuError>(MenuError::Empty)],
{
    let text = Seq::<char>::empty();
    assert(text.subrange(0, 0) =~= text);
    assert(split_lines(text) == seq![text]);
    assert(parse_menu(text) =~= seq![Err::<MenuRecord, MenuError>(MenuError::Empty)]);
}

/// A CR LF pair begins at `i`.
pub open spec fn break_at(s: Seq<char>, i: int) -> bool {
    0 <= i && i + 1 < s.len() && s[i] == CR && s[i + 1] == LF
}

/// The lines of `s[start..]` when the scan stands at `i`: a line ends at
/// each CR LF pair, and the last line ends with the text.
pub open spec fn lines_scan(s: Seq<char>, start: int, i: int) -> Seq<Seq<char>>
    decreases s.len() - i,
{
    if i >= s.len() {
        seq![s.subrange(start, s.len() as int)]
    } else if break_at(s, i) {
        seq![s.subrange(start, i)] + lines_scan(s, i + 2, i + 2)
    } else {
        lines_scan(s, start, i + 1)
    }
}

/// A text cut at every CR LF pair, left to right. There is always at least
/// one line; a text that ends in CR LF has an empty last line.
pub open spec fn split_lines(s: Seq<char>) -> Seq<Seq<char>> {
    lines_scan(s, 0, 0)
}

/// `s` holds a CR LF pair.
pub open spec fn has_break(s: Seq<char>) -> bool {
    exists|i: int| break_at(s, i)
}

/// Lines put together again, with CR LF between each two.
pub open spec fn joined(lines: Seq<Seq<char>>) -> Seq<char>
    decreases lines.len(),
{
    if lines.len() == 0 {
        Seq::empty()
    } else if lines.len() == 1 {
        lines[0]
    } else {
        lines[0] + seq![CR, LF] + joined(lines.drop_first())
    }
}

/// The scan loses nothing: its lines, joined, are the text it scanned, and
/// no line holds a line break.
proof fn lemma_lines_scan(s: Seq<char>, start: int, i: int)
    requires
        0 <= start <= i <= s.len(),
        forall|j: int| start <= j < i ==> !break_at(s, j),
    ensures
        lines_scan(s, start, i).len() >= 1,
        joined(lines_scan(s, start, i)) == s.subrange(start, s.len() as int),
        forall|k: int|
            0 <= k < lines_scan(s, start, i).len() ==> !has_break(
                #[trigger] lines_scan(s, start, i)[k],
            ),
    decreases s.len() - i,
{
    let lines = lines_scan(s, start, i);
    if i >= s.len() {
        let only = s.subrange(start, s.len() as int);
        if has_break(only) {
            let j = choose|j: int| break_at(only, j);
            assert(break_at(s, start + j));
        }
    } else if break_at(s, i) {
        let head = s.subrange(start, i);
        let rest = lines_scan(s, i + 2, i + 2);
        lemma_lines_scan(s, i + 2, i + 2);
        assert(lines == seq![head] + rest);
        assert(lines.drop_first() =~= rest);
        assert(lines[0] == head);
        assert(joined(lines) == head + seq![CR, LF] + joined(rest));
        assert(head + seq![CR, LF] + s.subrange(i + 2, s.len() as int) =~= s.subrange(
            start,
            s.len() as int,
        ));
        if has_break(head) {
            let j = choose|j: int| break_at(head, j);
            assert(break_at(s, start + j));
        }
        assert forall|k: int| 0 <= k < lines.len() implies !has_break(#[trigger] lines[k]) by {
            if k > 0 {
                assert(lines[k] == rest[k - 1]);
            }
        }
    } else {
        lemma_lines_scan(s, start, i + 1);
    }
}

/// Splitting loses nothing: there is at least one line, no line holds a
/// line break, and the lines joined with line breaks are the text again.
pub proof fn lemma_split_lines(s: Seq<char>)
    ensures
        split_lines(s).len() >= 1,
        joined(split_lines(s)) == s,
        forall|k: int| 0 <= k < split_lines(s).len() ==> !has_break(#[trigger] split_lines(s)[k]),
{
    lemma_lines_scan(s, 0, 0);
    assert(s.subrange(0, s.len() as int) =~= s);
}

/// What a menu text means: the meaning of each of its lines, in order.
pub open spec fn parse_menu(text: Seq<char>) -> Seq<Result<MenuRecord, MenuError>> {
    split_lines(text).map_values(|line: Seq<char>| parse_line(line))
}

impl ItemType {
    /// The short name used in messages.
    pub open spec fn name(self) -> Seq<char> {
        match self {
            ItemType::Text => "TXT"@,
            ItemType::Directory => "DIR"@,
            ItemType::Error => "ERR"@,
            ItemType::Binary => "BIN"@,
            ItemType::Unknown => "UNKNOWN"@,
        }
    }

    /// The short name used in messages.
    pub fn to_string(&self) -> (s: String)
        ensures
            s@ == self.name(),
    {
        match self {
            ItemType::Text => "TXT".to_owned(),
            ItemType::Directory => "DIR".to_owned(),
            ItemType::Error => "ERR".to_owned(),
            ItemType::Binary => "BIN".to_owned(),
            ItemType::Unknown => "UNKNOWN".to_owned(),
        }
    }

    /// Classifies the first character of a display string.
    pub fn from_char(c: char) -> (t: ItemType)
        ensures
            t == item_type_of(c),
    {
        match c {
            '0' => ItemType::Text,
            '1' => ItemType::Directory,
            '3' => ItemType::Error,
            '9' => ItemType::Binary,
            _ => ItemType::Unknown,
        }
    }
}

impl ResponseOutcome {
    /// The sentence that describes the outcome in a report.
    pub open spec fn description(self) -> Seq<char> {
        match self {
            ResponseOutcome::Complete => "Completed sucessfully"@,
            ResponseOutcome::Timeout => "Connection timed out"@,
            ResponseOutcome::FileTooLong => "File too long"@,
            ResponseOutcome::ConnectionFailed => "Failed to connect"@,
            ResponseOutcome::MissingEndLine => "Missing end-line"@,
            ResponseOutcome::MalformedResponseLine => "Malformed response line"@,
        }
    }

    /// The sentence that describes the outcome in a report.
    pub fn to_string(&self) -> (s: String)
        ensures
            s@ == self.description(),
    {
        match self {
            ResponseOutcome::Complete => "Completed sucessfully".to_owned(),
            ResponseOutcome::Timeout => "Connection timed out".to_owned(),
            ResponseOutcome::FileTooLong => "File too long".to_owned(),
            ResponseOutcome::ConnectionFailed => "Failed to connect".to_owned(),
            ResponseOutcome::MissingEndLine => "Missing end-line".to_owned(),
            ResponseOutcome::MalformedResponseLine => "Malformed response line".to_owned(),
        }
    }
}

impl ResponseLineError {
    /// The message for a parse failure.
    pub open spec fn message(e: MenuError) -> Seq<char> {
        match e {
            MenuError::Empty => "Empty response line"@,
            MenuError::InvalidParts(line) => "Unable to split line: "@ + line,
            MenuError::EmptyDisplayString(line) => "Empty display string: "@ + line,
            MenuError::EmptyHost(_, _, _) => "Missing host name"@,
            MenuError::NonIntPort(_, _, _) => "Invalid port number"@,
        }
    }

    /// The message for this failure.
    pub fn to_string(&self) -> (s: String)
        ensures
            s@ == Self::message(self@),
    {
        match self {
            ResponseLineError::Empty => "Empty response line".to_owned(),
            ResponseLineError::InvalidParts(line) => {
                "Unable to split line: ".to_owned().concat(line.as_str())
            },
            ResponseLineError::EmptyDisplayString(line) => {
                "Empty display string: ".to_owned().concat(line.as_str())
            },
            ResponseLineError::EmptyHost(_, _, _) => "Missing host name".to_owned(),
            ResponseLineError::NonIntPort(_, _, _) => "Invalid port number".to_owned(),
        }
    }
}

impl ItemType {
    /// The character that stands for this type at the head of a line.
    pub fn to_char(&self) -> (c: char)
        ensures
            c == type_char(*self),
    {
        match self {
            ItemType::Text => '0',
            ItemType::Directory => '1',
            ItemType::Error => '3',
            ItemType::Binary => '9',
            ItemType::Unknown => '?',
        }
    }
}

impl ResponseLine {
    /// The server of this line, written `host:port`.
    pub fn get_server_details(&self) -> (details: String)
        ensures
            details@ == super::request::server_details(self.server_name@, self.server_port),
    {
        format_server_details(self.server_name.as_str(), self.server_port)
    }

    /// Writes the record as a menu line, with the type character alone for
    /// a display string.
    pub fn to_line(&self) -> (line: String)
        ensures
            line@ == line_of(self@),
    {
        let mut line = String::new();
        line.push(self.item_type.to_char());
        line.push(TAB);
        line.append(self.selector.as_str());
        line.push(TAB);
        line.append(self.server_name.as_str());
        line.push(TAB);
        push_decimal(&mut line, self.server_port as u64);
        assert(line@ =~= line_of(self@));
        line
    }

    /// Parses one menu line.
    pub fn new(line: String) -> (r: Result<ResponseLine, ResponseLineError>)
        ensures
            parsed_view(r) == parse_line(line@),
    {
        let chars = chars_of(line.as_str());
        let n = chars.len();
        if n == 0 {
            return Err(ResponseLineError::Empty);
        }
        let t1 = find_char(&chars, TAB, 0);
        if t1 >= n {
            return Err(ResponseLineError::InvalidParts(line));
        }
        let t2 = find_char(&chars, TAB, t1 + 1);
        if t2 >= n {
            return Err(ResponseLineError::InvalidParts(line));
        }
        let t3 = find_char(&chars, TAB, t2 + 1);
        if t3 >= n {
            return Err(ResponseLineError::InvalidParts(line));
        }
        if t1 == 0 {
            return Err(ResponseLineError::EmptyDisplayString(line));
        }
        let item_type = ItemType::from_char(chars[0]);
        let selector = string_of(&chars, t1 + 1, t2);
        let server_name = string_of(&chars, t2 + 1, t3);
        if t3 == t2 + 1 {
            let port_text = string_of(&chars, t3 + 1, n);
            return Err(ResponseLineError::EmptyHost(server_name, port_text, selector));
        }
        match read_port(&chars, t3 + 1) {
            None => {
                let port_text = string_of(&chars, t3 + 1, n);
                Err(ResponseLineError::NonIntPort(server_name, port_text, selector))
            },
            Some(server_port) => Ok(
                ResponseLine {
                    item_type,
                    selector: Rc::new(selector),
                    server_name: Rc::new(server_name),
                    server_port,
                },
            ),
        }
    }
}

impl Response {
    /// Puts the received bytes and the outcome together.
    pub fn new(buffer: Vec<u8>, response_outcome: ResponseOutcome) -> (r: Response)
        ensures
            r.buffer == buffer,
            r.response_outcome == response_outcome,
    {
        Response { buffer, response_outcome }
    }

    /// The received bytes as text, when they are well-formed UTF-8.
    pub fn text(&self) -> (text: Option<String>)
        ensures
            text is Some <==> valid_utf8(self.buffer@),
            text matches Some(s) ==> s@ == decode_utf8(self.buffer@),
    {
        let text = from_utf8(self.buffer.as_slice());
        proof {
            if text is Some {
                encode_utf8_decode_utf8(text->0@);
            }
        }
        text
    }

    /// Splits a menu into its lines and parses each.
    pub fn to_response_lines(&self) -> (lines: Vec<Result<ResponseLine, ResponseLineError>>)
        requires
            valid_utf8(self.buffer@),
        ensures
            lines_view(lines@) == parse_menu(decode_utf8(self.buffer@)),
    {
        let text = self.text().unwrap();
        menu_lines(text.as_str())
    }
}

/// Splits a menu text into its lines and parses each.
pub fn menu_lines(text: &str) -> (lines: Vec<Result<ResponseLine, ResponseLineError>>)
    ensures
        lines_view(lines@) == parse_menu(text@),
{
    let chars = chars_of(text);
    let n = chars.len();
    let mut lines: Vec<Result<ResponseLine, ResponseLineError>> = Vec::new();
    let mut start: usize = 0;
    let mut i: usize = 0;
    let ghost view = |r: Result<ResponseLine, ResponseLineError>| parsed_view(r);
    let ghost parse = |line: Seq<char>| parse_line(line);
    while i < n
        invariant
            n == chars.len(),
            chars@ == text@,
            start <= i <= n,
            view == |r: Result<ResponseLine, ResponseLineError>| parsed_view(r),
            parse == |line: Seq<char>| parse_line(line),
            lines@.map_values(view) + lines_scan(chars@, start as int, i as int).map_values(parse)
                == parse_menu(text@),
        decreases n - i,
    {
        if chars[i] == CR && i + 1 < n && chars[i + 1] == LF {
            let line = ResponseLine::new(string_of(&chars, start, i));
            let ghost before = lines@;
            let ghost rest = lines_scan(chars@, i + 2, i + 2);
            proof {
                let head = seq![chars@.subrange(start as int, i as int)];
                assert(lines_scan(chars@, start as int, i as int) == head + rest);
                assert((head + rest).map_values(parse) =~= seq![parsed_view(line)]
                    + rest.map_values(parse));
                assert(before.push(line).map_values(view) =~= before.map_values(view)
                    + seq![parsed_view(line)]);
            }
            lines.push(line);
            i = i + 2;
            start = i;
        } else {
            i = i + 1;
        }
    }
    let line = ResponseLine::new(string_of(&chars, start, n));
    proof {
        let before = lines@;
        let last = seq![chars@.subrange(start as int, n as int)];
        assert(lines_scan(chars@, start as int, i as int) == last);
        assert(last.map_values(parse) =~= seq![parsed_view(line)]);
        assert(before.push(line).map_values(view) =~= before.map_values(view) + seq![
            parsed_view(line),
        ]);
    }
    lines.push(line);
    assert(lines_view(lines@) =~= lines@.map_values(view));
    lines
}

} // verus!
