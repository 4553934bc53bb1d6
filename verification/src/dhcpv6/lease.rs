//! Delegated prefixes from the lease files of systemd-networkd.

use vstd::prelude::*;
use vstd::string::*;

use crate::dhcpv6::event::LeaseEvent;
use crate::net::{Ipv6Addr, Ipv6Net};
use crate::text::{
    decimal, is_white, lemma_trimmed_end_is_start, lemma_white_end_goes, lemma_white_start_goes,
    push_decimal, starts_with, trimmed_end, trimmed_start,
};

verus! {

/// Where systemd-networkd keeps its lease files, one for each interface index.
pub const LEASES_DIR: &'static str = "/run/systemd/netif/leases";

/// What introduces a delegated prefix.
pub const DELEGATED_PREFIX_KEY: &'static str = "X-DELEGATED-PREFIX=";

/// The prefix that ipnet reads from a text.
pub uninterp spec fn parsed_net(text: Seq<char>) -> Option<Ipv6Net>;

/// `ipnet::Ipv6Net::from_str`: an address, a slash and a prefix length of at most 128.
#[verifier::external_body]
fn parse_net(text: &str) -> (r: Option<Ipv6Net>)
    ensures
        r == parsed_net(text@),
        r matches Some(n) ==> n.valid(),
{
    let net: ipnet::Ipv6Net = text.parse().ok()?;
    Some(Ipv6Net { addr: Ipv6Addr { bits: net.addr().into() }, prefix_len: net.prefix_len() })
}

/// The end of the line that starts at `from`: the next line feed, or the end of the text.
pub open spec fn line_end(s: Seq<char>, from: int) -> int
    decreases s.len() - from,
{
    if from < 0 || from >= s.len() || s[from] == '\n' {
        from
    } else {
        line_end(s, from + 1)
    }
}

/// What follows the key in a line, without white space around it. A line without the key has
/// nothing.
pub open spec fn line_value(line: Seq<char>) -> Option<Seq<char>> {
    let text = trimmed_end(trimmed_start(line));
    let key = DELEGATED_PREFIX_KEY@;
    if key.len() <= text.len() && text.subrange(0, key.len() as int) == key {
        Some(trimmed_end(trimmed_start(text.subrange(key.len() as int, text.len() as int))))
    } else {
        None
    }
}

/// The value in the first line that has one, from the line that starts at `from` on.
pub open spec fn first_value(s: Seq<char>, from: int) -> Option<Seq<char>>
    decreases s.len() - from,
{
    if from < 0 || from > s.len() {
        None
    } else {
        let end = line_end(s, from);
        match line_value(s.subrange(from, end)) {
            Some(v) => Some(v),
            None => if from <= end < s.len() {
                first_value(s, end + 1)
            } else {
                None
            },
        }
    }
}

proof fn lemma_line_end_bound(s: Seq<char>, from: int)
    requires
        0 <= from <= s.len(),
    ensures
        from <= line_end(s, from) <= s.len(),
    decreases s.len() - from,
{
    if from < s.len() && s[from] != '\n' {
        lemma_line_end_bound(s, from + 1);
    }
}

/// The end of the line that starts at `from`.
fn find_line_end(s: &str, from: usize, len: usize) -> (r: usize)
    requires
        from <= len,
        len == s@.len(),
    ensures
        r == line_end(s@, from as int),
        from <= r <= len,
{
    let mut i: usize = from;
    while i < len && s.get_char(i) != '\n'
        invariant
            from <= i <= len,
            len == s@.len(),
            line_end(s@, i as int) == line_end(s@, from as int),
        decreases len - i,
    {
        i = i + 1;
    }
    i
}

/// What optional text holds.
pub open spec fn text_of(v: Option<&str>) -> Option<Seq<char>> {
    match v {
        Some(t) => Some(t@),
        None => None,
    }
}

/// What follows the key in a line.
fn value_of_line<'a>(line: &'a str) -> (r: Option<&'a str>)
    ensures
        text_of(r) == line_value(line@),
{
    let text = line.trim();
    if !starts_with(text, DELEGATED_PREFIX_KEY) {
        return None;
    }
    let from: usize = DELEGATED_PREFIX_KEY.unicode_len();
    Some(text.substring_char(from, text.unicode_len()).trim())
}

/// The text of the delegated prefix in a lease file.
pub fn delegated_prefix_text<'a>(content: &'a str) -> (r: Option<&'a str>)
    ensures
        text_of(r) == first_value(content@, 0),
{
    let len: usize = content.unicode_len();
    let mut from: usize = 0;
    loop
        invariant
            from <= len,
            len == content@.len(),
            first_value(content@, from as int) == first_value(content@, 0),
        decreases len - from,
    {
        let end: usize = find_line_end(content, from, len);
        let found = value_of_line(content.substring_char(from, end));
        if found.is_some() {
            return found;
        }
        if end >= len {
            return None;
        }
        from = end + 1;
    }
}

/// The delegated prefix in a lease file: that in the first line that has the key, if it is one.
pub fn parse_delegated_prefix(content: &str) -> (r: Option<Ipv6Net>)
    ensures
        r == (match first_value(content@, 0) {
            Some(text) => parsed_net(text),
            None => None,
        }),
        r matches Some(n) ==> n.valid(),
{
    match delegated_prefix_text(content) {
        Some(text) => parse_net(text),
        None => None,
    }
}

/// The news in a lease file that has been written. A file that could not be read has none.
pub fn lease_event(content: Option<&str>) -> (r: Option<LeaseEvent>)
    ensures
        r == (match content {
            Some(c) => match first_value(c@, 0) {
                Some(text) => match parsed_net(text) {
                    Some(net) => Some(LeaseEvent(net)),
                    None => None,
                },
                None => None,
            },
            None => None,
        }),
{
    match content {
        Some(c) => match parse_delegated_prefix(c) {
            Some(net) => Some(LeaseEvent(net)),
            None => None,
        },
        None => None,
    }
}

/// The name of the lease file of an interface: its index.
fn lease_file_name(ifindex: u32) -> (r: String)
    ensures
        r@ == decimal(ifindex as nat),
{
    let mut out = String::new();
    push_decimal(&mut out, ifindex as u64);
    proof {
        assert(Seq::<char>::empty() + decimal(ifindex as nat) =~= decimal(ifindex as nat));
    }
    out
}

/// Whether a change of a file in the directory is one of the lease file of the interface.
pub fn concerns_lease(file_name: Option<&str>, ifindex: u32) -> (r: bool)
    ensures
        r == (file_name matches Some(name) && name@ == decimal(ifindex as nat)),
{
    match file_name {
        Some(name) => {
            let own = lease_file_name(ifindex);
            String::from_str(name) == own
        },
        None => false,
    }
}

/// The path of the lease file of an interface, if the interface has an index.
pub fn lease_file_path(ifindex: Option<u32>) -> (r: Option<String>)
    ensures
        match ifindex {
            Some(idx) => r matches Some(p) && p@ == LEASES_DIR@ + "/"@ + decimal(idx as nat),
            None => r is None,
        },
{
    match ifindex {
        Some(idx) => {
            let mut out = String::from_str(LEASES_DIR);
            out.append("/");
            push_decimal(&mut out, idx as u64);
            Some(out)
        },
        None => None,
    }
}

/// Text before the start of a line does not matter to what is found from there on.
proof fn lemma_found_from(a: Seq<char>, b: Seq<char>, k: int)
    requires
        0 <= k <= b.len(),
    ensures
        line_end(a + b, a.len() + k) == a.len() + line_end(b, k),
        first_value(a + b, a.len() + k) == first_value(b, k),
    decreases b.len() - k,
{
    let s = a + b;
    if k < b.len() {
        assert(s[a.len() + k] == b[k]);
        lemma_found_from(a, b, k + 1);
    }
    lemma_line_end_bound(b, k);
    let end = line_end(b, k);
    assert(s.subrange(a.len() + k, a.len() + end) =~= b.subrange(k, end));
    if end < b.len() {
        lemma_found_from(a, b, end + 1);
    }
}

/// The end of a line is where its characters end.
proof fn lemma_line_ends(line: Seq<char>, rest: Seq<char>, k: int)
    requires
        0 <= k <= line.len(),
        forall|i: int| 0 <= i < line.len() ==> #[trigger] line[i] != '\n',
    ensures
        line_end(line, k) == line.len(),
        line_end(line + seq!['\n'] + rest, k) == line.len(),
    decreases line.len() - k,
{
    let s = line + seq!['\n'] + rest;
    if k < line.len() {
        assert(s[k] == line[k]);
        lemma_line_ends(line, rest, k + 1);
    } else {
        assert(s[k] == '\n');
    }
}

/// A text is read line by line: what the first line has counts, and where it has nothing, the lines
/// after it.
pub proof fn lemma_lines_are_read_in_order(line: Seq<char>, rest: Seq<char>)
    requires
        forall|i: int| 0 <= i < line.len() ==> #[trigger] line[i] != '\n',
    ensures
        first_value(line, 0) == line_value(line),
        first_value(line + seq!['\n'] + rest, 0) == (match line_value(line) {
            Some(v) => Some(v),
            None => first_value(rest, 0),
        }),
{
    let start = line + seq!['\n'];
    let s = start + rest;
    lemma_line_ends(line, rest, 0);
    assert(line.subrange(0, line.len() as int) =~= line);
    assert(s.subrange(0, line.len() as int) =~= line);
    lemma_found_from(start, rest, 0);
}

/// A line with the key has what stands behind it, without the white space around it, whatever white
/// space the line begins with.
pub proof fn lemma_line_with_key(
    before: Seq<char>,
    between: Seq<char>,
    value: Seq<char>,
    after: Seq<char>,
)
    requires
        forall|i: int| 0 <= i < before.len() ==> is_white(#[trigger] before[i]),
        forall|i: int| 0 <= i < between.len() ==> is_white(#[trigger] between[i]),
        forall|i: int| 0 <= i < after.len() ==> is_white(#[trigger] after[i]),
        value.len() > 0,
        !is_white(value[0]),
        !is_white(value[value.len() - 1]),
    ensures
        line_value(before + "X-DELEGATED-PREFIX="@ + between + value + after) == Some(value),
{
    reveal_strlit("X-DELEGATED-PREFIX=");
    let key = "X-DELEGATED-PREFIX="@;
    let inner = key + between + value;
    let line = before + key + between + value + after;
    assert(line =~= before + (inner + after));
    assert((inner + after)[0] == 'X');
    lemma_white_start_goes(before, inner + after);
    assert(inner[inner.len() - 1] == value[value.len() - 1]);
    lemma_white_end_goes(inner, after);
    assert(inner.subrange(0, key.len() as int) =~= key);
    assert(inner.subrange(key.len() as int, inner.len() as int) =~= between + value);
    lemma_white_start_goes(between, value);
    assert(value + Seq::empty() =~= value);
    lemma_white_end_goes(value, Seq::empty());
}

/// A line that differs from the key in one of its characters has nothing.
pub proof fn lemma_line_without_key(before: Seq<char>, text: Seq<char>, k: int)
    requires
        forall|i: int| 0 <= i < before.len() ==> is_white(#[trigger] before[i]),
        text.len() > 0,
        !is_white(text[0]),
        0 <= k < "X-DELEGATED-PREFIX="@.len(),
        k >= text.len() || text[k] != "X-DELEGATED-PREFIX="@[k],
    ensures
        line_value(before + text) is None,
{
    let key = "X-DELEGATED-PREFIX="@;
    lemma_white_start_goes(before, text);
    lemma_trimmed_end_is_start(text);
    let kept = trimmed_end(text);
    if key.len() <= kept.len() {
        assert(kept.subrange(0, key.len() as int)[k] == kept[k]);
        assert(kept[k] == text[k]);
    }
}

/// The lease files are in `/run/systemd/netif/leases`.
pub proof fn lemma_where_leases_are()
    ensures
        LEASES_DIR@ == "/run/systemd/netif/leases"@,
{
}

} // verus!
