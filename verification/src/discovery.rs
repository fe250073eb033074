//! Link-local discovery for the short-lived initial pairing listener.
//!
//! Discovery advertises only a display name and pairing port. The
//! five-character code and all long-term secrets stay inside the encrypted
//! channel.
use vstd::prelude::*;

use crate::endpoint::{comes_before, parse_ip, Endpoint};
use crate::text::{
    has_char, parse_unsigned, push_decimal, spells, split_at_each, split_lines, text_from_utf8,
    text_from_utf8_lossy, to_chars, to_text, utf8_bytes, utf8_len,
};
use crate::wire::copy_range;

verus! {

#[derive(Debug, Clone, PartialEq, Eq)]
pub struct DiscoveredClient {
    pub endpoint: Endpoint,
    pub name: String,
}

#[verifier::ext_equal]
pub struct ClientView {
    pub endpoint: Endpoint,
    pub name: Seq<char>,
}

impl View for DiscoveredClient {
    type V = ClientView;

    open spec fn view(&self) -> ClientView {
        ClientView { endpoint: self.endpoint, name: self.name@ }
    }
}

#[derive(Debug, Clone, Copy, PartialEq, Eq, Structural)]
pub enum DiscoveryError {
    InvalidAdvertisement,
}

pub open spec fn prefix() -> Seq<char> {
    "CachyBridgeDiscovery/1"@
}

/// What can be advertised: a real port and a short name on one line.
pub open spec fn is_advertisable(port: u16, name: Seq<char>) -> bool {
    &&& port != 0
    &&& name.len() > 0
    &&& crate::text::utf8(name).len() <= 80
    &&& !name.contains('\n')
    &&& !name.contains('\r')
    &&& !name.contains('\t')
}

/// Prefix, port and name between tabs, and nothing else.
pub open spec fn advertisement(port: u16, name: Seq<char>) -> Seq<char> {
    prefix() + seq!['\t'] + crate::text::decimal(port as nat) + seq!['\t'] + name
}

/// Encodes an announcement.
pub fn encode_advertisement(pairing_port: u16, name: &str) -> (result: Result<
    Vec<u8>,
    DiscoveryError,
>)
    ensures
        match result {
            Ok(bytes) => is_advertisable(pairing_port, name@) && bytes@ == crate::text::utf8(
                advertisement(pairing_port, name@),
            ),
            Err(_) => !is_advertisable(pairing_port, name@),
        },
{
    let chars = to_chars(name);
    if pairing_port == 0 || chars.len() == 0 || utf8_len(name) > 80 || has_char(
        chars.as_slice(),
        '\n',
    ) || has_char(chars.as_slice(), '\r') || has_char(chars.as_slice(), '\t') {
        return Err(DiscoveryError::InvalidAdvertisement);
    }
    let mut text = "CachyBridgeDiscovery/1".to_owned();
    text.push('\t');
    push_decimal(&mut text, pairing_port as u64);
    text.push('\t');
    text.push_str(name);
    assert(text@ =~= advertisement(pairing_port, name@));
    Ok(utf8_bytes(text.as_str()))
}

/// The port and name in an announcement.
pub open spec fn advertised(bytes: Seq<u8>) -> Option<(u16, Seq<char>)> {
    let pieces = crate::text::split(vstd::utf8::decode_utf8(bytes), '\t');
    let port = crate::text::unsigned(pieces[1], 65535);
    if vstd::utf8::valid_utf8(bytes) && pieces.len() == 3 && pieces[0] == prefix() && port is Some
        && port->0 != 0 && pieces[2].len() > 0 && crate::text::utf8(pieces[2]).len() <= 80 {
        Some((port->0 as u16, pieces[2]))
    } else {
        None
    }
}

/// Decodes an announcement.
pub fn decode_advertisement(bytes: &[u8]) -> (found: Option<(u16, String)>)
    ensures
        match found {
            Some((port, name)) => advertised(bytes@) == Some((port, name@)),
            None => advertised(bytes@) is None,
        },
{
    assert(bytes@.subrange(0, bytes@.len() as int) =~= bytes@);
    let text = match text_from_utf8(copy_range(bytes, 0, bytes.len())) {
        Some(text) => text,
        None => {
            return None;
        },
    };
    let fields = split_at_each(to_chars(text.as_str()).as_slice(), '\t');
    let ghost pieces = crate::text::texts(fields@);
    if fields.len() != 3 {
        return None;
    }
    assert(pieces[0] == fields@[0]@ && pieces[1] == fields@[1]@ && pieces[2] == fields@[2]@);
    if !spells(fields[0].as_slice(), "CachyBridgeDiscovery/1") {
        return None;
    }
    let port: u64 = match parse_unsigned(fields[1].as_slice(), 65535) {
        Some(port) => port,
        None => {
            return None;
        },
    };
    let name = to_text(fields[2].as_slice());
    if port == 0 || fields[2].len() == 0 || utf8_len(name.as_str()) > 80 {
        return None;
    }
    Some((port as u16, name))
}

/// Splitting at a separator after a piece without it.
proof fn lemma_split_first(piece: Seq<char>, rest: Seq<char>, sep: char)
    requires
        !piece.contains(sep),
    ensures
        crate::text::split(piece + seq![sep] + rest, sep) == seq![piece] + crate::text::split(
            rest,
            sep,
        ),
{
    let s = piece + seq![sep] + rest;
    assert forall|j: int| 0 <= j < piece.len() implies s[j] != sep by {
        assert(piece.contains(piece[j]));
        assert(s[j] == piece[j]);
    }
    crate::text::lemma_find_at(s, sep, piece.len() as int);
    assert(s.take(piece.len() as int) =~= piece);
    assert(s.skip(piece.len() as int + 1) =~= rest);
}

/// A decoded announcement gives the port and name that were announced.
pub proof fn law_advertisement_round_trip(port: u16, name: Seq<char>)
    requires
        is_advertisable(port, name),
    ensures
        advertised(crate::text::utf8(advertisement(port, name))) == Some((port, name)),
{
    let text = advertisement(port, name);
    let digits = crate::text::decimal(port as nat);
    crate::text::lemma_utf8_round_trip(text);
    reveal_strlit("CachyBridgeDiscovery/1");
    crate::text::lemma_decimal(port as nat);
    assert(!digits.contains('\t')) by {
        assert forall|i: int| 0 <= i < digits.len() implies digits[i] != '\t' by {
            assert(crate::text::is_digit(digits[i]));
        }
    }
    lemma_split_first(prefix(), digits + seq!['\t'] + name, '\t');
    lemma_split_first(digits, name, '\t');
    assert(text =~= prefix() + seq!['\t'] + (digits + seq!['\t'] + name));
    crate::text::lemma_find(name, '\t');
    assert(crate::text::split(name, '\t') =~= seq![name]);
    assert(crate::text::split(text, '\t') =~= seq![prefix(), digits, name]);
    crate::text::lemma_unsigned_decimal(port as nat, 65535);
}

// Service browser records.

/// A service name with its escaped spaces restored.
pub open spec fn unescaped(s: Seq<char>) -> Seq<char>
    decreases s.len(),
{
    if s.len() == 0 {
        Seq::empty()
    } else if s.len() >= 4 && s[0] == '\\' && s[1] == '0' && s[2] == '3' && s[3] == '2' {
        seq![' '] + unescaped(s.skip(4))
    } else {
        seq![s[0]] + unescaped(s.skip(1))
    }
}

/// The client that one browser record announces: a resolved record of this
/// service at an address that other machines can reach.
pub open spec fn record_client(line: Seq<char>) -> Option<ClientView> {
    let fields = crate::text::split(line, ';');
    let ip = crate::endpoint::ip_denoted(fields[7]);
    let port = crate::text::unsigned(fields[8], 65535);
    if fields.len() >= 10 && fields[0] == "="@ && fields[4] == "_cachybridge._tcp"@ && ip is Some
        && !ip->0.loopback() && !ip->0.v6_link_local() && port is Some && port->0 != 0 {
        Some(
            ClientView {
                endpoint: ip->0.at_port(port->0 as u16),
                name: unescaped(fields[3]),
            },
        )
    } else {
        None
    }
}

/// The clients of the first records, in order.
pub open spec fn records_clients(lines: Seq<Seq<char>>) -> Seq<ClientView>
    decreases lines.len(),
{
    if lines.len() == 0 {
        Seq::empty()
    } else {
        match record_client(lines.last()) {
            Some(client) => records_clients(lines.drop_last()).push(client),
            None => records_clients(lines.drop_last()),
        }
    }
}

pub open spec fn client_views(clients: Seq<DiscoveredClient>) -> Seq<ClientView> {
    clients.map_values(|client: DiscoveredClient| client@)
}

fn unescape(chars: &[char]) -> (out: Vec<char>)
    ensures
        out@ == unescaped(chars@),
{
    let mut out: Vec<char> = Vec::new();
    let mut i: usize = 0;
    assert(chars@.skip(0) =~= chars@);
    assert(out@ + unescaped(chars@) =~= unescaped(chars@));
    while i < chars.len()
        invariant
            i <= chars.len(),
            out@ + unescaped(chars@.skip(i as int)) == unescaped(chars@),
        decreases chars.len() - i,
    {
        let ghost rest = chars@.skip(i as int);
        let ghost before = out@;
        if chars.len() - i >= 4 && chars[i] == '\\' && chars[i + 1] == '0' && chars[i + 2] == '3'
            && chars[i + 3] == '2' {
            out.push(' ');
            assert(rest.skip(4) =~= chars@.skip(i + 4));
            assert(out@ + unescaped(rest.skip(4)) =~= before + (seq![' '] + unescaped(
                rest.skip(4),
            )));
            i = i + 4;
        } else {
            out.push(chars[i]);
            assert(rest.skip(1) =~= chars@.skip(i + 1));
            assert(out@ + unescaped(rest.skip(1)) =~= before + (seq![rest[0]] + unescaped(
                rest.skip(1),
            )));
            i = i + 1;
        }
    }
    assert(out@ + unescaped(chars@.skip(i as int)) =~= out@);
    out
}

fn client_of_record(line: &[char]) -> (client: Option<DiscoveredClient>)
    ensures
        match client {
            Some(client) => record_client(line@) == Some(client@),
            None => record_client(line@) is None,
        },
{
    let fields = split_at_each(line, ';');
    let ghost pieces = crate::text::texts(fields@);
    if fields.len() < 10 {
        return None;
    }
    assert(pieces[0] == fields@[0]@ && pieces[3] == fields@[3]@ && pieces[4] == fields@[4]@
        && pieces[7] == fields@[7]@ && pieces[8] == fields@[8]@);
    if !spells(fields[0].as_slice(), "=") || !spells(fields[4].as_slice(), "_cachybridge._tcp") {
        return None;
    }
    let ip = match parse_ip(fields[7].as_slice()) {
        Some(ip) => ip,
        None => {
            return None;
        },
    };
    if ip.is_loopback() || ip.is_v6_link_local() {
        return None;
    }
    let port: u64 = match parse_unsigned(fields[8].as_slice(), 65535) {
        Some(port) => port,
        None => {
            return None;
        },
    };
    if port == 0 {
        return None;
    }
    Some(
        DiscoveredClient {
            endpoint: ip.with_port(port as u16),
            name: to_text(unescape(fields[3].as_slice()).as_slice()),
        },
    )
}

/// The clients in the text of a service browser.
pub fn parse_mdns_text(text: &str) -> (clients: Vec<DiscoveredClient>)
    ensures
        client_views(clients@) == records_clients(crate::text::lines(text@)),
{
    let all = split_lines(to_chars(text).as_slice());
    let ghost lines = crate::text::lines(text@);
    let mut clients: Vec<DiscoveredClient> = Vec::new();
    let mut i: usize = 0;
    assert(lines.take(0) =~= Seq::<Seq<char>>::empty());
    assert(client_views(clients@) =~= records_clients(lines.take(0)));
    while i < all.len()
        invariant
            i <= all.len(),
            lines == crate::text::texts(all@),
            client_views(clients@) == records_clients(lines.take(i as int)),
        decreases all.len() - i,
    {
        assert(lines[i as int] == all@[i as int]@);
        assert(lines.take(i + 1).drop_last() =~= lines.take(i as int));
        let ghost before = client_views(clients@);
        if let Some(client) = client_of_record(all[i].as_slice()) {
            let ghost added = client@;
            clients.push(client);
            assert(client_views(clients@) =~= before.push(added));
        }
        i = i + 1;
    }
    assert(lines.take(i as int) =~= lines);
    clients
}

/// The clients in the output of a service browser.
pub fn parse_mdns_output(output: &[u8]) -> (clients: Vec<DiscoveredClient>)
    ensures
        client_views(clients@) == records_clients(
            crate::text::lines(crate::text::lossy_text(output@)),
        ),
        vstd::utf8::valid_utf8(output@) ==> client_views(clients@) == records_clients(
            crate::text::lines(vstd::utf8::decode_utf8(output@)),
        ),
{
    parse_mdns_text(text_from_utf8_lossy(output).as_str())
}

// Merging.

/// Clients in the order of their endpoints, each endpoint once.
pub open spec fn is_ordered(clients: Seq<ClientView>) -> bool {
    forall|i: int, j: int|
        0 <= i < j < clients.len() ==> crate::endpoint::precedes(
            (#[trigger] clients[i]).endpoint,
            (#[trigger] clients[j]).endpoint,
        )
}

/// The last of the clients with an endpoint.
pub open spec fn latest(clients: Seq<ClientView>, endpoint: Endpoint) -> Option<ClientView>
    decreases clients.len(),
{
    if clients.len() == 0 {
        None
    } else if clients.last().endpoint == endpoint {
        Some(clients.last())
    } else {
        latest(clients.drop_last(), endpoint)
    }
}

/// Ordered clients that hold, for every endpoint found, what was last said of it.
pub open spec fn is_merged(found: Seq<ClientView>, merged: Seq<ClientView>) -> bool {
    &&& is_ordered(merged)
    &&& forall|i: int|
        0 <= i < merged.len() ==> latest(found, (#[trigger] merged[i]).endpoint) == Some(merged[i])
    &&& forall|k: int|
        0 <= k < found.len() ==> exists|i: int|
            0 <= i < merged.len() && merged[i].endpoint == (#[trigger] found[k]).endpoint
}

proof fn lemma_latest_push(found: Seq<ClientView>, client: ClientView, endpoint: Endpoint)
    ensures
        latest(found.push(client), endpoint) == if client.endpoint == endpoint {
            Some(client)
        } else {
            latest(found, endpoint)
        },
{
    assert(found.push(client).drop_last() =~= found);
}

/// Puts a client at its place, in place of an earlier one with its endpoint.
fn insert_client(
    merged: &mut Vec<DiscoveredClient>,
    client: DiscoveredClient,
    Ghost(found): Ghost<Seq<ClientView>>,
)
    requires
        is_merged(found, client_views(old(merged)@)),
    ensures
        is_merged(found.push(client@), client_views(final(merged)@)),
{
    let ghost before = client_views(merged@);
    let ghost all = found.push(client@);
    let mut at: usize = 0;
    while at < merged.len() && comes_before(&merged[at].endpoint, &client.endpoint)
        invariant
            at <= merged.len(),
            before == client_views(merged@),
            forall|j: int|
                0 <= j < at ==> crate::endpoint::precedes(
                    (#[trigger] before[j]).endpoint,
                    client.endpoint,
                ),
        decreases merged.len() - at,
    {
        assert(before[at as int] == merged@[at as int]@);
        at = at + 1;
    }
    let ghost view = client@;
    assert(at < before.len() ==> before[at as int] == merged@[at as int]@);
    if at < merged.len() && merged[at].endpoint.same(&client.endpoint) {
        merged.set(at, client);
        proof {
            let after = client_views(merged@);
            assert(after =~= before.update(at as int, view));
            assert forall|i: int| 0 <= i < after.len() implies latest(
                all,
                (#[trigger] after[i]).endpoint,
            ) == Some(after[i]) by {
                lemma_latest_push(found, view, after[i].endpoint);
                if i != at {
                    assert(after[i] == before[i]);
                    if i < at {
                        assert(crate::endpoint::precedes(before[i].endpoint, before[at as int].endpoint));
                    } else {
                        assert(crate::endpoint::precedes(before[at as int].endpoint, before[i].endpoint));
                    }
                    crate::endpoint::law_endpoints_are_ordered(
                        before[i].endpoint,
                        before[at as int].endpoint,
                        before[i].endpoint,
                    );
                }
            }
            assert forall|k: int| 0 <= k < all.len() implies exists|i: int|
                0 <= i < after.len() && after[i].endpoint == (#[trigger] all[k]).endpoint by {
                if k < found.len() {
                    assert(all[k] == found[k]);
                    let i = choose|i: int|
                        0 <= i < before.len() && before[i].endpoint == found[k].endpoint;
                    assert(after[i].endpoint == before[i].endpoint);
                } else {
                    assert(after[at as int].endpoint == all[k].endpoint);
                }
            }
            assert forall|i: int, j: int| 0 <= i < j < after.len() implies crate::endpoint::precedes(
                (#[trigger] after[i]).endpoint,
                (#[trigger] after[j]).endpoint,
            ) by {
                assert(after[i].endpoint == before[i].endpoint);
                assert(after[j].endpoint == before[j].endpoint);
            }
        }
    } else {
        merged.insert(at, client);
        proof {
            let after = client_views(merged@);
            assert(after =~= before.insert(at as int, view));
            assert forall|j: int| at <= j < before.len() implies crate::endpoint::precedes(
                view.endpoint,
                (#[trigger] before[j]).endpoint,
            ) by {
                crate::endpoint::law_endpoints_are_ordered(
                    view.endpoint,
                    before[at as int].endpoint,
                    before[j].endpoint,
                );
                if j > at {
                    assert(crate::endpoint::precedes(
                        before[at as int].endpoint,
                        before[j].endpoint,
                    ));
                }
            }
            assert forall|i: int| 0 <= i < after.len() implies latest(
                all,
                (#[trigger] after[i]).endpoint,
            ) == Some(after[i]) by {
                lemma_latest_push(found, view, after[i].endpoint);
                if i < at {
                    assert(after[i] == before[i]);
                    crate::endpoint::law_endpoints_are_ordered(
                        before[i].endpoint,
                        view.endpoint,
                        view.endpoint,
                    );
                } else if i > at {
                    assert(after[i] == before[i - 1]);
                    crate::endpoint::law_endpoints_are_ordered(
                        view.endpoint,
                        before[i - 1].endpoint,
                        view.endpoint,
                    );
                }
            }
            assert forall|k: int| 0 <= k < all.len() implies exists|i: int|
                0 <= i < after.len() && after[i].endpoint == (#[trigger] all[k]).endpoint by {
                if k < found.len() {
                    assert(all[k] == found[k]);
                    let i = choose|i: int|
                        0 <= i < before.len() && before[i].endpoint == found[k].endpoint;
                    if i < at {
                        assert(after[i].endpoint == found[k].endpoint);
                    } else {
                        assert(after[i + 1].endpoint == found[k].endpoint);
                    }
                } else {
                    assert(after[at as int].endpoint == all[k].endpoint);
                }
            }
            assert forall|i: int, j: int| 0 <= i < j < after.len() implies crate::endpoint::precedes(
                (#[trigger] after[i]).endpoint,
                (#[trigger] after[j]).endpoint,
            ) by {
                if j < at {
                    assert(after[i] == before[i] && after[j] == before[j]);
                } else if j == at {
                    assert(after[i] == before[i]);
                } else if i < at {
                    assert(after[i] == before[i] && after[j] == before[j - 1]);
                } else if i == at {
                    assert(after[j] == before[j - 1]);
                } else {
                    assert(after[i] == before[i - 1] && after[j] == before[j - 1]);
                }
            }
        }
    }
}

/// Merges everything that was found: one client for each endpoint, in the
/// order of the endpoints, with the name that came last.
pub fn merge_clients(found: Vec<DiscoveredClient>) -> (merged: Vec<DiscoveredClient>)
    ensures
        is_merged(client_views(found@), client_views(merged@)),
{
    let mut merged: Vec<DiscoveredClient> = Vec::new();
    let ghost all = client_views(found@);
    let mut i: usize = 0;
    assert(is_merged(all.take(0), client_views(merged@)));
    while i < found.len()
        invariant
            i <= found.len(),
            all == client_views(found@),
            is_merged(all.take(i as int), client_views(merged@)),
        decreases found.len() - i,
    {
        let client = DiscoveredClient {
            endpoint: found[i].endpoint,
            name: found[i].name.clone(),
        };
        assert(client@ == all[i as int]);
        insert_client(&mut merged, client, Ghost(all.take(i as int)));
        assert(all.take(i as int).push(all[i as int]) =~= all.take(i + 1));
        i = i + 1;
    }
    assert(all.take(i as int) =~= all);
    merged
}

/// What can be announced: any port but zero, and a name of one to eighty bytes
/// without tab, line feed and carriage return.
pub proof fn law_what_can_be_announced(port: u16, name: Seq<char>)
    ensures
        is_advertisable(port, name) <==> port > 0 && 0 < name.len() && crate::text::utf8(name).len()
            <= 80 && forall|i: int|
            0 <= i < name.len() ==> #[trigger] name[i] != '\n' && name[i] != '\r' && name[i] != '\t',
        advertisement(port, name) == "CachyBridgeDiscovery/1"@ + seq!['\t'] + crate::text::decimal(
            port as nat,
        ) + seq!['\t'] + name,
{
    if forall|i: int|
        0 <= i < name.len() ==> #[trigger] name[i] != '\n' && name[i] != '\r' && name[i] != '\t' {
        if name.contains('\n') {
            let i = choose|i: int| 0 <= i < name.len() && name[i] == '\n';
            assert(name[i] != '\n');
        }
        if name.contains('\r') {
            let i = choose|i: int| 0 <= i < name.len() && name[i] == '\r';
            assert(name[i] != '\n');
        }
        if name.contains('\t') {
            let i = choose|i: int| 0 <= i < name.len() && name[i] == '\t';
            assert(name[i] != '\n');
        }
    }
}

/// What is read from an announcement: the number behind the first tab, which is
/// not zero, and the name behind the second one, which is neither empty nor long
/// and ends the text. Anything else is no announcement.
pub proof fn law_announcements_are_read(head: Seq<char>, digits: Seq<char>, name: Seq<char>)
    requires
        !head.contains('\t'),
        !digits.contains('\t'),
    ensures
        ({
            let bytes = crate::text::utf8(head + seq!['\t'] + digits + seq!['\t'] + name);
            let port = crate::text::unsigned(digits, 65535);
            if head == "CachyBridgeDiscovery/1"@ && port is Some && port->0 > 0 && 0 < name.len()
                && crate::text::utf8(name).len() <= 80 && !name.contains('\t') {
                advertised(bytes) == Some((port->0 as u16, name))
            } else {
                advertised(bytes) is None
            }
        }),
{
    let text = head + seq!['\t'] + digits + seq!['\t'] + name;
    crate::text::lemma_utf8_round_trip(text);
    lemma_split_first(head, digits + seq!['\t'] + name, '\t');
    lemma_split_first(digits, name, '\t');
    assert(text =~= head + seq!['\t'] + (digits + seq!['\t'] + name));
    let pieces = crate::text::split(text, '\t');
    let rest = crate::text::split(name, '\t');
    assert(pieces =~= seq![head, digits] + rest);
    crate::text::lemma_find(name, '\t');
    crate::text::law_splitting_loses_nothing(name, '\t');
    if name.contains('\t') {
        let at = crate::text::find(name, '\t');
        crate::text::law_splitting_loses_nothing(name.skip(at + 1), '\t');
        assert(rest.len() >= 2);
    } else {
        assert(rest =~= seq![name]);
    }
}

/// An escaped space is read as a space, and what holds no backslash as it is.
pub proof fn law_escaped_spaces_are_restored(plain: Seq<char>, rest: Seq<char>)
    requires
        !plain.contains('\\'),
    ensures
        unescaped(plain + rest) == plain + unescaped(rest),
        unescaped(plain) == plain,
        unescaped(seq!['\\', '0', '3', '2'] + rest) == seq![' '] + unescaped(rest),
        rest.len() < 3 || rest[0] != '0' || rest[1] != '3' || rest[2] != '2' ==> unescaped(
            seq!['\\'] + rest,
        ) == seq!['\\'] + unescaped(rest),
{
    lemma_plain_is_kept(plain, rest);
    lemma_plain_is_kept(plain, Seq::empty());
    assert(plain + Seq::<char>::empty() =~= plain);
    assert(plain + unescaped(Seq::empty()) =~= plain);
    assert((seq!['\\', '0', '3', '2'] + rest).skip(4) =~= rest);
    let s = seq!['\\'] + rest;
    assert(s.skip(1) =~= rest);
    if rest.len() >= 3 {
        assert(s[1] == rest[0] && s[2] == rest[1] && s[3] == rest[2]);
    }
}

proof fn lemma_plain_is_kept(plain: Seq<char>, rest: Seq<char>)
    requires
        !plain.contains('\\'),
    ensures
        unescaped(plain + rest) == plain + unescaped(rest),
    decreases plain.len(),
{
    if plain.len() == 0 {
        assert(plain + rest =~= rest);
        assert(plain + unescaped(rest) =~= unescaped(rest));
    } else {
        let s = plain + rest;
        assert(plain.contains(plain[0]));
        assert(s[0] == plain[0]);
        assert(s.skip(1) =~= plain.skip(1) + rest);
        assert(!plain.skip(1).contains('\\')) by {
            if plain.skip(1).contains('\\') {
                let i = choose|i: int| 0 <= i < plain.skip(1).len() && plain.skip(1)[i] == '\\';
                assert(plain[i + 1] == '\\');
            }
        }
        lemma_plain_is_kept(plain.skip(1), rest);
        assert(seq![plain[0]] + (plain.skip(1) + unescaped(rest)) =~= plain + unescaped(rest));
    }
}

/// A browser's record names a client exactly if it is a resolved one of this
/// service with an address that other machines reach and a port; the client has
/// that address, that port and the name of the record.
pub proof fn law_records_name_clients(line: Seq<char>)
    ensures
        ({
            let fields = crate::text::split(line, ';');
            let ip = crate::endpoint::ip_denoted(fields[7]);
            let port = crate::text::unsigned(fields[8], 65535);
            &&& record_client(line) is Some <==> fields.len() >= 10 && fields[0] == seq!['=']
                && fields[4] == "_cachybridge._tcp"@ && ip is Some && !ip->0.loopback()
                && !ip->0.v6_link_local() && port is Some && port->0 > 0
            &&& record_client(line) matches Some(client) ==> client.name == unescaped(fields[3])
                && client.endpoint.address() == ip->0 && client.endpoint == ip->0.at_port(
                port->0 as u16,
            )
        }),
{
    reveal_strlit("=");
    assert("="@ =~= seq!['=']);
}

/// The clients of more records come behind those of the records before, one for
/// each record that names one.
pub proof fn law_records_are_read_in_order(a: Seq<Seq<char>>, b: Seq<Seq<char>>, line: Seq<char>)
    ensures
        records_clients(a + b) == records_clients(a) + records_clients(b),
        records_clients(seq![line]) == match record_client(line) {
            Some(client) => seq![client],
            None => Seq::empty(),
        },
    decreases b.len(),
{
    assert(seq![line].drop_last() =~= Seq::<Seq<char>>::empty());
    assert(records_clients(Seq::empty()) =~= Seq::<ClientView>::empty());
    match record_client(line) {
        Some(client) => {
            assert(Seq::<ClientView>::empty().push(client) =~= seq![client]);
        },
        None => {},
    }
    if b.len() == 0 {
        assert(a + b =~= a);
        assert(records_clients(a) + records_clients(b) =~= records_clients(a));
    } else {
        assert((a + b).drop_last() =~= a + b.drop_last());
        assert((a + b).last() == b.last());
        law_records_are_read_in_order(a, b.drop_last(), line);
        assert(records_clients(a + b) =~= records_clients(a) + records_clients(b));
    }
}

/// What was last said of an endpoint: the client that was found there and that
/// no later one replaces.
pub proof fn law_the_latest_counts(found: Seq<ClientView>, endpoint: Endpoint, k: int)
    requires
        -1 <= k < found.len(),
        0 <= k ==> found[k].endpoint == endpoint,
        forall|j: int| k < j < found.len() ==> (#[trigger] found[j]).endpoint != endpoint,
    ensures
        latest(found, endpoint) == if 0 <= k {
            Some(found[k])
        } else {
            None
        },
    decreases found.len(),
{
    if found.len() > 0 {
        let last = found.len() - 1;
        assert(found[last] == found.last());
        if k < last {
            let front = found.drop_last();
            assert forall|j: int| k < j < front.len() implies (#[trigger] front[j]).endpoint
                != endpoint by {
                assert(front[j] == found[j]);
            }
            assert(0 <= k ==> front[k] == found[k]);
            law_the_latest_counts(front, endpoint, k);
        }
    }
}

/// A merged list has, of each of its endpoints, what was last said of it.
pub proof fn law_merging_keeps_the_latest(found: Seq<ClientView>, merged: Seq<ClientView>, i: int)
    requires
        is_merged(found, merged),
        0 <= i < merged.len(),
    ensures
        latest(found, merged[i].endpoint) == Some(merged[i]),
{
    assert(merged[i].endpoint == merged[i].endpoint);
}

/// A merged list has each endpoint once, in order.
pub proof fn law_merging_orders(
    found: Seq<ClientView>,
    merged: Seq<ClientView>,
    i: int,
    j: int,
)
    requires
        is_merged(found, merged),
        0 <= i < j < merged.len(),
    ensures
        crate::endpoint::precedes(merged[i].endpoint, merged[j].endpoint),
        merged[i].endpoint != merged[j].endpoint,
{
    let a = merged[i].endpoint;
    let b = merged[j].endpoint;
    crate::endpoint::law_endpoints_are_ordered(a, b, b);
}

/// Every endpoint that was found is in the merged list.
pub proof fn law_merging_loses_no_endpoint(
    found: Seq<ClientView>,
    merged: Seq<ClientView>,
    k: int,
)
    requires
        is_merged(found, merged),
        0 <= k < found.len(),
    ensures
        exists|at: int|
            0 <= at < merged.len() && (#[trigger] merged[at]).endpoint == found[k].endpoint,
{
    assert(found[k].endpoint == found[k].endpoint);
}

} // verus!
