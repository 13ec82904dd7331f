//! The report of a crawl: what was found, as one block of text.

use super::model::{CrawlState, Reference};
use super::{ledger_view, place_view, places_view, servers_view, some_place_view, Crawler, Place};
use crate::gopher::request::{format_server_details, server_details};
use crate::gopher::response::ResponseOutcome;
use crate::order::{alphabetical, join, joined_with, sort_alphabetically, texts_view};
use crate::text::{decimal, push_decimal};
use std::rc::Rc;
use vstd::prelude::*;

verus! {

/// How a place is written: `host:port: selector`.
pub open spec fn place_line(r: Reference) -> Seq<char> {
    server_details(r.0, r.1) + ": "@ + r.2
}

/// How the place of an extreme is written; with no file there is no host,
/// no port and no selector to write.
pub open spec fn some_place_line(r: Option<Reference>) -> Seq<char> {
    match r {
        Some(r) => place_line(r),
        None => ": "@,
    }
}

/// How an external server is written: `host:port`, then whether it accepted a connection.
pub open spec fn server_line(e: (Seq<char>, u16, bool)) -> Seq<char> {
    server_details(e.0, e.1) + " "@ + if e.2 {
        "connected successfully"@
    } else {
        "did not connect"@
    }
}

/// How a ledger entry is written: what went wrong, then the reference.
pub open spec fn invalid_line(e: (Seq<char>, ResponseOutcome)) -> Seq<char> {
    e.1.description() + " "@ + e.0
}

/// Lines in alphabetical order, one below the other.
pub open spec fn listing(lines: Seq<Seq<char>>) -> Seq<char> {
    joined_with(alphabetical(lines), "\n\t\t"@)
}

/// The report of a crawl in state `s`.
pub open spec fn report_text(s: CrawlState) -> Seq<char> {
    "\nSTART CRAWLER REPORT\n\n\tNumber of Gopher directories: "@ + decimal(s.ndir) + "\n\t\t"@
        + listing(s.directories.map_values(|r: Reference| place_line(r)))
        + "\n\n\tNumber of simple text files: "@ + decimal(s.text.count) + "\n\t\t"@ + listing(
        s.text.files.map_values(|r: Reference| place_line(r)),
    ) + "\n\n\tNumber of binary files: "@ + decimal(s.binary.count) + "\n\t\t"@ + listing(
        s.binary.files.map_values(|r: Reference| place_line(r)),
    ) + "\n\n\tSmallest text file: "@ + some_place_line(s.text.smallest) + "\n\t\tSize: "@
        + decimal(s.text.smallest_size as nat) + " bytes\n\t\tContents: "@
        + s.smallest_text_contents + "\n\n\tSize of the largest text file: "@ + decimal(
        s.text.largest_size as nat,
    ) + " bytes\n\t\t"@ + some_place_line(s.text.largest)
        + "\n\n\tSize of the smallest binary file: "@ + decimal(s.binary.smallest_size as nat)
        + " bytes\n\t\t"@ + some_place_line(s.binary.smallest)
        + "\n\n\tSize of the largest binary file: "@ + decimal(s.binary.largest_size as nat)
        + " bytes\n\t\t"@ + some_place_line(s.binary.largest)
        + "\n\n\tThe number of unique invalid references (error types): "@ + decimal(s.n_errors)
        + "\n\n\tList of external servers:\n\t\t"@ + listing(
        s.external_servers.map_values(|e: (Seq<char>, u16, bool)| server_line(e)),
    ) + "\n\n\tReferences that have issues/errors:\n\t\t"@ + listing(
        s.invalid_refs.map_values(|e: (Seq<char>, ResponseOutcome)| invalid_line(e)),
    ) + "\n\nEND CRAWLER REPORT"@
}

/// Writes a place.
fn format_place(place: &Place) -> (line: String)
    ensures
        line@ == place_line(place_view(*place)),
{
    let mut line = format_server_details(place.0.as_str(), place.1);
    line.append(": ");
    line.append(place.2.as_str());
    line
}

/// Writes the place of an extreme.
fn format_some_place(place: &Option<Place>) -> (line: String)
    ensures
        line@ == some_place_line(some_place_view(*place)),
{
    match place {
        Some(place) => format_place(place),
        None => ": ".to_owned(),
    }
}

/// Writes places in alphabetical order, one below the other.
fn list_places(places: &Vec<Place>) -> (text: String)
    ensures
        text@ == listing(places_view(places@).map_values(|r: Reference| place_line(r))),
{
    let mut lines: Vec<String> = Vec::new();
    let mut i: usize = 0;
    while i < places.len()
        invariant
            i <= places.len(),
            lines@.len() == i,
            forall|k: int|
                0 <= k < i ==> (#[trigger] lines@[k])@ == place_line(place_view(places@[k])),
        decreases places.len() - i,
    {
        lines.push(format_place(&places[i]));
        i = i + 1;
    }
    assert(texts_view(lines@) =~= places_view(places@).map_values(
        |r: Reference| place_line(r),
    ));
    join(&sort_alphabetically(&lines), "\n\t\t")
}

/// Writes external servers in alphabetical order, one below the other.
fn list_servers(servers: &Vec<(Rc<String>, u16, bool)>) -> (text: String)
    ensures
        text@ == listing(
            servers_view(servers@).map_values(|e: (Seq<char>, u16, bool)| server_line(e)),
        ),
{
    let mut lines: Vec<String> = Vec::new();
    let mut i: usize = 0;
    while i < servers.len()
        invariant
            i <= servers.len(),
            lines@.len() == i,
            forall|k: int|
                0 <= k < i ==> (#[trigger] lines@[k])@ == server_line(
                    servers_view(servers@)[k],
                ),
        decreases servers.len() - i,
    {
        let server = &servers[i];
        let mut line = format_server_details(server.0.as_str(), server.1);
        line.append(" ");
        if server.2 {
            line.append("connected successfully");
        } else {
            line.append("did not connect");
        }
        lines.push(line);
        i = i + 1;
    }
    assert(texts_view(lines@) =~= servers_view(servers@).map_values(
        |e: (Seq<char>, u16, bool)| server_line(e),
    ));
    join(&sort_alphabetically(&lines), "\n\t\t")
}

/// Writes the ledger in alphabetical order, one entry below the other.
fn list_invalid(ledger: &Vec<(String, ResponseOutcome)>) -> (text: String)
    ensures
        text@ == listing(
            ledger_view(ledger@).map_values(|e: (Seq<char>, ResponseOutcome)| invalid_line(e)),
        ),
{
    let mut lines: Vec<String> = Vec::new();
    let mut i: usize = 0;
    while i < ledger.len()
        invariant
            i <= ledger.len(),
            lines@.len() == i,
            forall|k: int|
                0 <= k < i ==> (#[trigger] lines@[k])@ == invalid_line(ledger_view(ledger@)[k]),
        decreases ledger.len() - i,
    {
        let entry = &ledger[i];
        let mut line = entry.1.to_string();
        line.append(" ");
        line.append(entry.0.as_str());
        lines.push(line);
        i = i + 1;
    }
    assert(texts_view(lines@) =~= ledger_view(ledger@).map_values(
        |e: (Seq<char>, ResponseOutcome)| invalid_line(e),
    ));
    join(&sort_alphabetically(&lines), "\n\t\t")
}

impl Crawler {
    /// The report of the crawl as it stands.
    pub fn report(&self) -> (text: String)
        ensures
            text@ == report_text(self@),
    {
        let mut text = "\nSTART CRAWLER REPORT\n\n\tNumber of Gopher directories: ".to_owned();
        push_decimal(&mut text, self.ndir() as u64);
        text.append("\n\t\t");
        text.append(list_places(self.dirs()).as_str());
        text.append("\n\n\tNumber of simple text files: ");
        push_decimal(&mut text, self.ntxt() as u64);
        text.append("\n\t\t");
        text.append(list_places(self.txt_files()).as_str());
        text.append("\n\n\tNumber of binary files: ");
        push_decimal(&mut text, self.nbin() as u64);
        text.append("\n\t\t");
        text.append(list_places(self.bin_files()).as_str());
        text.append("\n\n\tSmallest text file: ");
        text.append(format_some_place(self.smallest_txt_selector()).as_str());
        text.append("\n\t\tSize: ");
        push_decimal(&mut text, self.smallest_txt());
        text.append(" bytes\n\t\tContents: ");
        text.append(self.smallest_contents().as_str());
        text.append("\n\n\tSize of the largest text file: ");
        push_decimal(&mut text, self.largest_txt());
        text.append(" bytes\n\t\t");
        text.append(format_some_place(self.largest_txt_selector()).as_str());
        text.append("\n\n\tSize of the smallest binary file: ");
        push_decimal(&mut text, self.smallest_bin());
        text.append(" bytes\n\t\t");
        text.append(format_some_place(self.smallest_bin_selector()).as_str());
        text.append("\n\n\tSize of the largest binary file: ");
        push_decimal(&mut text, self.largest_bin());
        text.append(" bytes\n\t\t");
        text.append(format_some_place(self.largest_bin_selector()).as_str());
        text.append("\n\n\tThe number of unique invalid references (error types): ");
        push_decimal(&mut text, self.nerr());
        text.append("\n\n\tList of external servers:\n\t\t");
        text.append(list_servers(self.external_servers()).as_str());
        text.append("\n\n\tReferences that have issues/errors:\n\t\t");
        text.append(list_invalid(self.invalid_references()).as_str());
        text.append("\n\nEND CRAWLER REPORT");
        text
    }
}

} // verus!
